use walk_through::{
    is_numeric_char, is_symbol_char, Env, Value,
    parse, parse_sexp, read_boolean, read_list, read_number, read_sexp, read_symbol, run, BinOp,
    Error, EvalError, Exp, IntErrorKind, ReadError, SExp, SyntaxError,
};

#[test]
fn test_read_boolean() {
    assert_eq!(read_boolean("#f").unwrap(), (SExp::Boolean(false), ""));
    assert_eq!(
        read_boolean("#false QQ").unwrap(),
        (SExp::Boolean(false), " QQ")
    );
    assert_eq!(read_boolean("#t").unwrap(), (SExp::Boolean(true), ""));
    assert_eq!(read_boolean("#true)").unwrap(), (SExp::Boolean(true), ")"));
}

#[test]
fn test_read_number() {
    assert_eq!(read_number("23").unwrap(), (SExp::Number(23), ""));
    assert_eq!(read_number("42)").unwrap(), (SExp::Number(42), ")"));
    assert_eq!(read_number("-1 )").unwrap(), (SExp::Number(-1), " )"));
}

#[test]
fn test_read_symbol() {
    assert_eq!(
        read_symbol("x").unwrap(),
        (SExp::Symbol("x".to_string()), "")
    );
    assert_eq!(
        read_symbol("AXE)").unwrap(),
        (SExp::Symbol("AXE".to_string()), ")")
    );
}

#[test]
fn test_read_list() {
    assert_eq!(
        read_list("{a 2}").unwrap(),
        (
            SExp::List(vec![SExp::Symbol("a".to_string()), SExp::Number(2)]),
            ""
        )
    );
}

#[test]
fn test_read_sexp() {
    assert_eq!(read_sexp("  234").unwrap(), (SExp::Number(234), ""));
    assert_eq!(read_sexp(" #true)").unwrap(), (SExp::Boolean(true), ")"));
    assert_eq!(
        read_sexp(" z)").unwrap(),
        (SExp::Symbol("z".to_string()), ")")
    );
    assert_eq!(read_sexp("-").unwrap(), (SExp::Symbol("-".to_string()), ""));
    assert_eq!(read_sexp("-2").unwrap(), (SExp::Number(-2), ""));
}

#[test]
fn test_parse_binary_mul() {
    let (sexp, rest) = read_sexp("{* 2 3}").unwrap();
    assert!(rest.is_empty());
    assert_eq!(
        sexp,
        SExp::List(vec![
            SExp::Symbol("*".to_string()),
            SExp::Number(2),
            SExp::Number(3)
        ])
    );
    let exp = parse_sexp(&sexp).unwrap();
    assert_eq!(
        exp,
        Exp::BinFn(BinOp::Mul, Box::new(Exp::Number(2)), Box::new(Exp::Number(3)))
    );
}

#[test]
fn test_parse_binary_add() {
    let (sexp, rest) = read_sexp("{+ 22 33}").unwrap();
    assert!(rest.is_empty());
    assert_eq!(
        sexp,
        SExp::List(vec![
            SExp::Symbol("+".to_string()),
            SExp::Number(22),
            SExp::Number(33)
        ])
    );
    let exp = parse_sexp(&sexp).unwrap();
    assert_eq!(
        exp,
        Exp::BinFn(BinOp::Add, Box::new(Exp::Number(22)), Box::new(Exp::Number(33)))
    );
}

#[test]
fn test_parse_if() {
    let (sexp, rest) = read_sexp("{if x 2 {+ y 4}}").unwrap();
    assert!(rest.is_empty());
    assert_eq!(
        sexp,
        SExp::List(vec![
            SExp::Symbol("if".to_string()),
            SExp::Symbol("x".to_string()),
            SExp::Number(2),
            SExp::List(vec![
                SExp::Symbol("+".to_string()),
                SExp::Symbol("y".to_string()),
                SExp::Number(4)
            ])
        ])
    );
    let exp = parse_sexp(&sexp).unwrap();
    assert_eq!(
        exp,
        Exp::If(
            Box::new(Exp::Variable("x".to_string())),
            Box::new(Exp::Number(2)),
            Box::new(Exp::BinFn(
                BinOp::Add,
                Box::new(Exp::Variable("y".to_string())),
                Box::new(Exp::Number(4))
            ))
        )
    );
}

// Reading: edge cases and errors.

#[test]
fn read_errors() {
    assert_eq!(read_sexp("   "), Err(ReadError::EmptyInput));
    assert_eq!(read_sexp(""), Err(ReadError::EmptyInput));
    assert_eq!(
        read_sexp("  @x"),
        Err(ReadError::Unrecognized("@x".to_string()))
    );
    assert_eq!(
        read_boolean("#x"),
        Err(ReadError::ExpectedBoolean("#x".to_string()))
    );
    assert_eq!(
        read_number("x1"),
        Err(ReadError::ExpectedNumber("x1".to_string()))
    );
    assert_eq!(
        read_symbol("1x"),
        Err(ReadError::ExpectedSymbol("1x".to_string()))
    );
    assert_eq!(read_list("a}"), Err(ReadError::MissingBrace));
    assert_eq!(read_list("{1 2"), Err(ReadError::UnterminatedList));
    assert_eq!(read_sexp("{1 {2}"), Err(ReadError::UnterminatedList));
}

#[test]
fn read_number_limits() {
    assert_eq!(read_number("2147483647").unwrap(), (SExp::Number(i32::MAX), ""));
    assert_eq!(read_number("-2147483648").unwrap(), (SExp::Number(i32::MIN), ""));
    assert_eq!(
        read_number("2147483648"),
        Err(ReadError::InvalidNumber(IntErrorKind::PosOverflow))
    );
    assert_eq!(
        read_number("-2147483649"),
        Err(ReadError::InvalidNumber(IntErrorKind::NegOverflow))
    );
    assert_eq!(
        read_number("-"),
        Err(ReadError::InvalidNumber(IntErrorKind::InvalidDigit))
    );
    assert_eq!(
        read_number(""),
        Err(ReadError::InvalidNumber(IntErrorKind::Empty))
    );
    assert_eq!(read_number("007x").unwrap(), (SExp::Number(7), "x"));
    // A minus sign only starts a number.
    assert_eq!(read_number("12-3").unwrap(), (SExp::Number(12), "-3"));
}

#[test]
fn read_tokens() {
    assert_eq!(read_boolean("#tx").unwrap(), (SExp::Boolean(true), "x"));
    assert_eq!(read_boolean("#fa").unwrap(), (SExp::Boolean(false), "a"));
    assert_eq!(read_symbol("").unwrap(), (SExp::Symbol(String::new()), ""));
    assert_eq!(
        read_symbol("ab12+c{").unwrap(),
        (SExp::Symbol("ab12+c".to_string()), "{")
    );
    assert_eq!(
        read_sexp("-x").unwrap(),
        (SExp::Symbol("-x".to_string()), "")
    );
    assert_eq!(
        read_sexp("\t\n{ }rest").unwrap(),
        (SExp::List(vec![]), "rest")
    );
    // Unicode white space is skipped too.
    assert_eq!(read_sexp("\u{3000}5").unwrap(), (SExp::Number(5), ""));
    // The rest is cut at the right place after characters of several bytes.
    assert_eq!(
        read_sexp("é").unwrap_err(),
        ReadError::Unrecognized("é".to_string())
    );
    assert_eq!(read_sexp("x é").unwrap(), (SExp::Symbol("x".to_string()), " é"));
}

#[test]
fn leading_whitespace_fails_direct_readers() {
    assert!(read_boolean(" #t").is_err());
    assert!(read_number(" 1").is_err());
    assert!(read_symbol(" x").is_err());
    assert!(read_list(" {}").is_err());
    assert_eq!(read_sexp(" 1"), read_sexp("1"));
}

#[test]
fn read_nested_list() {
    assert_eq!(
        read_sexp("{let1 {x 1} {f x}} tail").unwrap(),
        (
            SExp::List(vec![
                SExp::Symbol("let1".to_string()),
                SExp::List(vec![SExp::Symbol("x".to_string()), SExp::Number(1)]),
                SExp::List(vec![
                    SExp::Symbol("f".to_string()),
                    SExp::Symbol("x".to_string())
                ]),
            ]),
            " tail"
        )
    );
}

// Parsing into expressions.

#[test]
fn parse_forms() {
    let p = |s: &str| parse_sexp(&read_sexp(s).unwrap().0);
    assert_eq!(
        p("{lam x x}").unwrap(),
        Exp::Lambda("x".to_string(), Box::new(Exp::Variable("x".to_string())))
    );
    assert_eq!(
        p("{let1 {x 1} x}").unwrap(),
        Exp::Let1(
            "x".to_string(),
            Box::new(Exp::Number(1)),
            Box::new(Exp::Variable("x".to_string()))
        )
    );
    assert_eq!(
        p("{f #t}").unwrap(),
        Exp::Apply(
            Box::new(Exp::Variable("f".to_string())),
            Box::new(Exp::Boolean(true))
        )
    );
    assert_eq!(
        p("{/ 1 2}").unwrap(),
        Exp::BinFn(BinOp::Div, Box::new(Exp::Number(1)), Box::new(Exp::Number(2)))
    );
    assert_eq!(
        p("{- 1 2}").unwrap(),
        Exp::BinFn(BinOp::Sub, Box::new(Exp::Number(1)), Box::new(Exp::Number(2)))
    );
}

#[test]
fn parse_errors() {
    let p = |s: &str| {
        let sexp = read_sexp(s).unwrap().0;
        let copy = read_sexp(s).unwrap().0;
        (parse_sexp(&sexp), copy)
    };
    let (r, s) = p("{iff 1 2 3}");
    assert_eq!(r, Err(SyntaxError::NotIf(s)));
    let (r, s) = p("{lam 1 2}");
    assert_eq!(r, Err(SyntaxError::BadLambda(s)));
    let (r, s) = p("{let1 x 2}");
    assert_eq!(r, Err(SyntaxError::BadLet1(s)));
    let (r, s) = p("{let1 {1 2} 2}");
    assert_eq!(r, Err(SyntaxError::BadLet1(s)));
    let (r, s) = p("{foo 1 2}");
    assert_eq!(r, Err(SyntaxError::UnknownOperator(s)));
    let (r, s) = p("{1 2 3 4}");
    assert_eq!(r, Err(SyntaxError::UnrecognizedForm(s)));
    let (r, s) = p("{}");
    assert_eq!(r, Err(SyntaxError::UnrecognizedForm(s)));
    let (r, s) = p("{1 2 3}");
    assert_eq!(r, Err(SyntaxError::UnrecognizedForm(s)));
    // The first error, left to right, is the one reported.
    let (r, _) = p("{+ {lam 1 2} {foo 1 2}}");
    let (_, s) = p("{lam 1 2}");
    assert_eq!(r, Err(SyntaxError::BadLambda(s)));
}

#[test]
fn parse_prints_plait() {
    assert_eq!(parse("5").unwrap(), "(numE 5)");
    assert_eq!(parse("-17").unwrap(), "(numE -17)");
    assert_eq!(parse("#t").unwrap(), "(boolE #t)");
    assert_eq!(parse("#false").unwrap(), "(boolE #f)");
    assert_eq!(parse("x").unwrap(), "(varE 'x)");
    assert_eq!(
        parse("{+ 1 2}").unwrap(),
        "(addE (numE 1) (numE 2))"
    );
    assert_eq!(
        parse("{if #t {- 1 2} {* 3 4}}").unwrap(),
        "(ifE (boolE #t) (subE (numE 1) (numE 2)) (mulE (numE 3) (numE 4)))"
    );
    assert_eq!(
        parse("{let1 {x 1} {/ x 2}}").unwrap(),
        "(let1E 'x (numE 1) (divE (varE 'x) (numE 2)))"
    );
    assert_eq!(
        parse("{lam x {f x}}").unwrap(),
        "(lamE 'x (appE (varE 'f) (varE 'x)))"
    );
    assert_eq!(parse(" 7  \n").unwrap(), "(numE 7)");
    assert_eq!(parse("-2147483648").unwrap(), "(numE -2147483648)");
}

#[test]
fn parse_errors_end_to_end() {
    assert_eq!(parse("1 2"), Err(Error::LeftoverInput));
    assert_eq!(parse(""), Err(Error::Read(ReadError::EmptyInput)));
    assert!(matches!(parse("{foo 1 2}"), Err(Error::Syntax(SyntaxError::UnknownOperator(_)))));
    // Parsing does not evaluate.
    assert_eq!(parse("{/ 1 0}").unwrap(), "(divE (numE 1) (numE 0))");
}

// Running.

#[test]
fn run_values() {
    assert_eq!(run("{+ 1 2}").unwrap(), "3");
    assert_eq!(run("{- 1 2}").unwrap(), "-1");
    assert_eq!(run("{* 6 7}").unwrap(), "42");
    assert_eq!(run("{/ 7 2}").unwrap(), "3");
    assert_eq!(run("{/ 7 -2}").unwrap(), "-3");
    assert_eq!(run("{/ -7 2}").unwrap(), "-3");
    assert_eq!(run("{/ -7 -2}").unwrap(), "3");
    assert_eq!(run("#t").unwrap(), "#t");
    assert_eq!(run("#f").unwrap(), "#f");
    assert_eq!(run("{lam x x}").unwrap(), "#closure");
    assert_eq!(run("{if #f 1 2}").unwrap(), "2");
    assert_eq!(run("{if #t 1 2}").unwrap(), "1");
    assert_eq!(run("{let1 {x 5} {* x x}}").unwrap(), "25");
    assert_eq!(run("{{lam x {+ x 1}} 41}").unwrap(), "42");
    assert_eq!(run("-2147483648").unwrap(), "-2147483648");
}

#[test]
fn run_scoping() {
    // Closures see the environment they were made in.
    assert_eq!(
        run("{let1 {y 1} {let1 {f {lam x {+ x y}}} {let1 {y 100} {f 1}}}}").unwrap(),
        "2"
    );
    // An inner binding shadows an outer one, and only in its body.
    assert_eq!(run("{let1 {x 1} {+ {let1 {x 10} x} x}}").unwrap(), "11");
    // Curried functions.
    assert_eq!(run("{{{lam a {lam b {- a b}}} 10} 3}").unwrap(), "7");
    // `{{lam x b} a}` is `{let1 {x a} b}`.
    assert_eq!(
        run("{{lam x {* x 2}} 21}").unwrap(),
        run("{let1 {x 21} {* x 2}}").unwrap()
    );
}

#[test]
fn run_errors() {
    assert_eq!(run("{/ 1 0}"), Err(Error::Eval(EvalError::DivisionByZero)));
    assert_eq!(run("x"), Err(Error::Eval(EvalError::Unbound("x".to_string()))));
    assert_eq!(run("{if 1 2 3}"), Err(Error::Eval(EvalError::ConditionNotBoolean)));
    assert_eq!(run("{1 2}"), Err(Error::Eval(EvalError::NotAClosure)));
    assert_eq!(
        run("{+ #t 1}"),
        Err(Error::Eval(EvalError::LeftNotNumber(BinOp::Add)))
    );
    assert_eq!(
        run("{* 1 #t}"),
        Err(Error::Eval(EvalError::RightNotNumber(BinOp::Mul)))
    );
    // Left operand first, then right.
    assert_eq!(run("{+ a b}"), Err(Error::Eval(EvalError::Unbound("a".to_string()))));
    // The argument is evaluated before the function.
    assert_eq!(run("{f a}"), Err(Error::Eval(EvalError::Unbound("a".to_string()))));
    // The body of a closure sees no binding of the caller's.
    assert_eq!(
        run("{let1 {f {lam x y}} {let1 {y 1} {f 0}}}"),
        Err(Error::Eval(EvalError::Unbound("y".to_string())))
    );
    // Errors before evaluation are those of parsing.
    assert_eq!(run("1 2"), Err(Error::LeftoverInput));
    assert_eq!(run("{1"), Err(Error::Read(ReadError::UnterminatedList)));
}

#[test]
fn binop_names() {
    assert_eq!(BinOp::Add.to_string(), "+");
    assert_eq!(BinOp::Sub.to_string(), "-");
    assert_eq!(BinOp::Mul.to_string(), "*");
    assert_eq!(BinOp::Div.to_string(), "/");
    assert_eq!(BinOp::Add.show_plait(), "addE");
    assert_eq!(BinOp::Sub.show_plait(), "subE");
    assert_eq!(BinOp::Mul.show_plait(), "mulE");
    assert_eq!(BinOp::Div.show_plait(), "divE");
}

#[test]
fn char_classes() {
    assert!(is_numeric_char(&(0, '-')));
    assert!(!is_numeric_char(&(1, '-')));
    assert!(is_numeric_char(&(3, '7')));
    assert!(!is_numeric_char(&(0, 'a')));
    assert!(is_symbol_char(&(0, 'a')));
    assert!(is_symbol_char(&(0, '/')));
    assert!(!is_symbol_char(&(0, '1')));
    assert!(is_symbol_char(&(1, '1')));
    assert!(!is_symbol_char(&(1, '#')));
}

#[test]
fn environments_are_persistent() {
    let empty = Env::new();
    let one = empty.update("x".to_string(), Value::Number(1));
    let two = one.update("x".to_string(), Value::Number(2));
    assert!(empty.get("x").is_none());
    assert!(matches!(one.get("x"), Some(&Value::Number(1))));
    assert!(matches!(two.get("x"), Some(&Value::Number(2))));
    let copy = two.clone();
    assert!(matches!(copy.get("x"), Some(&Value::Number(2))));
    assert!(copy.get("y").is_none());
}

#[test]
fn values_are_shown() {
    assert_eq!(Value::Number(-12).to_string(), "-12");
    assert_eq!(Value::Number(0).to_string(), "0");
    assert_eq!(Value::Boolean(true).to_string(), "#t");
    assert_eq!(Value::Boolean(false).to_string(), "#f");
    assert_eq!(
        Value::Closure("x".to_string(), Exp::Number(1), Env::new()).to_string(),
        "#closure"
    );
}

#[test]
fn calc_evaluates_in_empty_environment() {
    let e = parse_sexp(&read_sexp("{let1 {x 3} {+ x x}}").unwrap().0).unwrap();
    assert!(matches!(walk_through::interp::calc(&e), Ok(Value::Number(6))));
    let e = parse_sexp(&read_sexp("x").unwrap().0).unwrap();
    assert!(matches!(walk_through::interp::calc(&e), Err(EvalError::Unbound(_))));
}

#[test]
fn apply_arithmetic() {
    let n = |i| Value::Number(i);
    assert!(matches!(BinOp::Add.apply(&n(2), &n(3)), Ok(Value::Number(5))));
    assert!(matches!(BinOp::Div.apply(&n(i32::MIN), &n(1)), Ok(Value::Number(i32::MIN))));
    assert!(matches!(BinOp::Div.apply(&n(-9), &n(4)), Ok(Value::Number(-2))));
    assert_eq!(BinOp::Div.apply(&n(1), &n(0)).err(), Some(EvalError::DivisionByZero));
    assert_eq!(
        BinOp::Sub.apply(&Value::Boolean(true), &n(0)).err(),
        Some(EvalError::LeftNotNumber(BinOp::Sub))
    );
}

#[test]
fn shown_numbers_read_back() {
    for n in [0, 7, -7, 10, 123456, -100, i32::MAX, i32::MIN] {
        let shown = Value::Number(n).to_string();
        assert_eq!(read_sexp(&shown).unwrap(), (SExp::Number(n), ""));
        assert_eq!(run(&shown).unwrap(), shown);
    }
}

#[test]
fn read_sexp_dispatches_on_first_character() {
    assert_eq!(read_sexp("{a 1} x"), read_list("{a 1} x"));
    assert_eq!(read_sexp("12 x"), read_number("12 x"));
    assert_eq!(read_sexp("#f x"), read_boolean("#f x"));
    assert_eq!(read_sexp("ab x"), read_symbol("ab x"));
}

#[test]
fn run_and_parse_fail_alike_before_evaluation() {
    for s in ["", "1 2", "{1", "{foo 1 2}", "@"] {
        assert_eq!(run(s), parse(s));
    }
    assert!(parse("{+ 1 2}").is_ok() && run("{+ 1 2}").is_ok());
}
