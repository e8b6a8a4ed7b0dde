//! Values, environments and the interpreter.

use vstd::prelude::*;
use crate::exp::{BinOp, Exp, ExpModel};
use crate::sexp::{lemma_read_decimal_roundtrip, spec_read_sexp, ReadErrorModel, SExpModel};
use crate::text::{int_decimal, push_decimal};

verus! {

/// The mathematical value of a [`Value`]; a closure holds the bindings of
/// the environment it was made in.
pub enum ValueModel {
    Number(i32),
    Boolean(bool),
    Closure(Seq<char>, ExpModel, Map<Seq<char>, ValueModel>),
}

/// An immutable environment: an `imbl::HashMap` from names to values.
/// Updating gives a new environment and leaves the old one as it was.
///
/// The map stands in a field that Verus does not see: `Value` holds
/// environments, and a map type with `Value` as its type argument would make
/// `Value` recursive through a parameter of a type declared from outside,
/// which Verus refuses. What the map holds is [`env_bindings`], and the
/// methods below state what each call does to it.
#[verifier::external_body]
pub struct Env {
    map: imbl::HashMap<String, Value>,
}

/// The bindings that an environment holds, each value by its model.
pub uninterp spec fn env_bindings(env: Env) -> Map<Seq<char>, ValueModel>;

/// Results of evaluation.
pub enum Value {
    Number(i32),
    Boolean(bool),
    Closure(String, Exp, Env),
}

impl View for Value {
    type V = ValueModel;

    open spec fn view(&self) -> ValueModel {
        match self {
            Value::Number(n) => ValueModel::Number(*n),
            Value::Boolean(b) => ValueModel::Boolean(*b),
            Value::Closure(x, body, env) => ValueModel::Closure(x@, body@, env_bindings(*env)),
        }
    }
}

impl Clone for Env {
    /// `imbl::HashMap::clone`: the copy shares the map's nodes and holds the
    /// same bindings.
    #[verifier::external_body]
    fn clone(&self) -> (r: Env)
        ensures
            env_bindings(r) == env_bindings(*self),
    {
        Env { map: self.map.clone() }
    }
}

impl Clone for Value {
    fn clone(&self) -> (r: Value)
        ensures
            r@ == self@,
    {
        match self {
            Value::Number(n) => Value::Number(*n),
            Value::Boolean(b) => Value::Boolean(*b),
            Value::Closure(x, body, env) => Value::Closure(x.clone(), body.clone(), env.clone()),
        }
    }
}

impl Env {
    /// `imbl::HashMap::new`: an environment with no bindings.
    #[verifier::external_body]
    pub fn new() -> (r: Env)
        ensures
            env_bindings(r) =~= Map::empty(),
    {
        Env { map: imbl::HashMap::new() }
    }

    /// `imbl::HashMap::update`: a new environment with `name` bound to
    /// `value` (replacing any binding of `name`); `self` is left unchanged.
    #[verifier::external_body]
    pub fn update(&self, name: String, value: Value) -> (r: Env)
        ensures
            env_bindings(r) == env_bindings(*self).insert(name@, value@),
    {
        Env { map: self.map.update(name, value) }
    }

    /// `imbl::HashMap::get`: the value bound to `name`, if any.
    #[verifier::external_body]
    pub fn get<'a>(&'a self, name: &str) -> (r: Option<&'a Value>)
        ensures
            r is Some <==> env_bindings(*self).contains_key(name@),
            r matches Some(v) ==> v@ == env_bindings(*self)[name@],
    {
        self.map.get(name)
    }
}

/// Why evaluation failed.
#[derive(Debug, PartialEq, Eq)]
pub enum EvalError {
    DivisionByZero,
    /// The operation's left operand is not a number.
    LeftNotNumber(BinOp),
    /// The operation's right operand is not a number.
    RightNotNumber(BinOp),
    /// The variable has no binding.
    Unbound(String),
    /// The condition of `if` is not a boolean.
    ConditionNotBoolean,
    /// What is applied is not a closure.
    NotAClosure,
}

pub enum EvalErrorModel {
    DivisionByZero,
    LeftNotNumber(BinOp),
    RightNotNumber(BinOp),
    Unbound(Seq<char>),
    ConditionNotBoolean,
    NotAClosure,
}

impl View for EvalError {
    type V = EvalErrorModel;

    open spec fn view(&self) -> EvalErrorModel {
        match self {
            EvalError::DivisionByZero => EvalErrorModel::DivisionByZero,
            EvalError::LeftNotNumber(op) => EvalErrorModel::LeftNotNumber(*op),
            EvalError::RightNotNumber(op) => EvalErrorModel::RightNotNumber(*op),
            EvalError::Unbound(x) => EvalErrorModel::Unbound(x@),
            EvalError::ConditionNotBoolean => EvalErrorModel::ConditionNotBoolean,
            EvalError::NotAClosure => EvalErrorModel::NotAClosure,
        }
    }
}

/// How evaluating within a bound on the depth of nested evaluations ends:
/// with a value, with an error, with an arithmetic overflow (where `i32`
/// arithmetic panics), or not within the bound.
pub enum Outcome {
    Value(ValueModel),
    Error(EvalErrorModel),
    Overflow,
    Unfinished,
}

impl Outcome {
    /// Evaluation ended with a value or an error.
    pub open spec fn finished(self) -> bool {
        self is Value || self is Error
    }
}

pub open spec fn outcome_of(r: Result<Value, EvalError>) -> Outcome {
    match r {
        Ok(v) => Outcome::Value(v@),
        Err(e) => Outcome::Error(e@),
    }
}

/// An `i32` result, or an overflow.
pub open spec fn checked(n: int) -> Outcome {
    if i32::MIN <= n <= i32::MAX {
        Outcome::Value(ValueModel::Number(n as i32))
    } else {
        Outcome::Overflow
    }
}

pub open spec fn abs(n: int) -> int {
    if n < 0 {
        -n
    } else {
        n
    }
}

/// Integer division rounding toward zero, as `i32` division does.
pub open spec fn trunc_div(a: int, b: int) -> int {
    if (a < 0) == (b < 0) {
        abs(a) / abs(b)
    } else {
        -(abs(a) / abs(b))
    }
}

/// Applying an operation to two values.
pub open spec fn spec_apply(op: BinOp, left: ValueModel, right: ValueModel) -> Outcome {
    match left {
        ValueModel::Number(a) => match right {
            ValueModel::Number(b) => match op {
                BinOp::Add => checked(a + b),
                BinOp::Sub => checked(a - b),
                BinOp::Mul => checked(a * b),
                BinOp::Div => if b == 0 {
                    Outcome::Error(EvalErrorModel::DivisionByZero)
                } else {
                    checked(trunc_div(a as int, b as int))
                },
            },
            _ => Outcome::Error(EvalErrorModel::RightNotNumber(op)),
        },
        _ => Outcome::Error(EvalErrorModel::LeftNotNumber(op)),
    }
}

/// Evaluating an expression in an environment, with at most `fuel` nested
/// evaluations.
///
/// Operands are evaluated left to right; the argument of an application is
/// evaluated before the function; a `lam` captures the environment it is
/// evaluated in, and applying the closure evaluates its body in that
/// environment extended with the parameter.
pub open spec fn eval(e: ExpModel, env: Map<Seq<char>, ValueModel>, fuel: nat) -> Outcome
    decreases fuel,
{
    if fuel == 0 {
        Outcome::Unfinished
    } else {
        let f = (fuel - 1) as nat;
        match e {
            ExpModel::Number(n) => Outcome::Value(ValueModel::Number(n)),
            ExpModel::Boolean(b) => Outcome::Value(ValueModel::Boolean(b)),
            ExpModel::BinFn(op, l, r) => match eval(*l, env, f) {
                Outcome::Value(lv) => match eval(*r, env, f) {
                    Outcome::Value(rv) => spec_apply(op, lv, rv),
                    other => other,
                },
                other => other,
            },
            ExpModel::Lambda(x, body) => Outcome::Value(ValueModel::Closure(x, *body, env)),
            ExpModel::Variable(x) => if env.contains_key(x) {
                Outcome::Value(env[x])
            } else {
                Outcome::Error(EvalErrorModel::Unbound(x))
            },
            ExpModel::If(c, t, el) => match eval(*c, env, f) {
                Outcome::Value(ValueModel::Boolean(b)) => if b {
                    eval(*t, env, f)
                } else {
                    eval(*el, env, f)
                },
                Outcome::Value(_) => Outcome::Error(EvalErrorModel::ConditionNotBoolean),
                other => other,
            },
            ExpModel::Let1(x, v, body) => match eval(*v, env, f) {
                Outcome::Value(val) => eval(*body, env.insert(x, val), f),
                other => other,
            },
            ExpModel::Apply(fun, arg) => match eval(*arg, env, f) {
                Outcome::Value(a) => match eval(*fun, env, f) {
                    Outcome::Value(ValueModel::Closure(x, body, cenv)) => eval(
                        body,
                        cenv.insert(x, a),
                        f,
                    ),
                    Outcome::Value(_) => Outcome::Error(EvalErrorModel::NotAClosure),
                    other => other,
                },
                other => other,
            },
        }
    }
}

impl BinOp {
    /// Applies the operation to two numbers.
    pub fn apply(self, left: &Value, right: &Value) -> (r: Result<Value, EvalError>)
        requires
            !(spec_apply(self, left@, right@) is Overflow),
        ensures
            outcome_of(r) == spec_apply(self, left@, right@),
    {
        if let Value::Number(l) = left {
            if let Value::Number(r) = right {
                let (l, r) = (*l, *r);
                match self {
                    BinOp::Add => Ok(Value::Number(l + r)),
                    BinOp::Sub => Ok(Value::Number(l - r)),
                    BinOp::Mul => {
                        assert(l * r == (l as int) * (r as int));
                        Ok(Value::Number(l * r))
                    },
                    BinOp::Div => {
                        if r != 0 {
                            // Divide the magnitudes, then give the quotient its sign:
                            // `i32` division rounds toward zero.
                            let a: u32 = if l < 0 {
                                (0i64 - l as i64) as u32
                            } else {
                                l as u32
                            };
                            let b: u32 = if r < 0 {
                                (0i64 - r as i64) as u32
                            } else {
                                r as u32
                            };
                            let q = a / b;
                            assert(q == abs(l as int) / abs(r as int));
                            if (l < 0) == (r < 0) {
                                Ok(Value::Number(q as i32))
                            } else {
                                Ok(Value::Number((0i64 - q as i64) as i32))
                            }
                        } else {
                            Err(EvalError::DivisionByZero)
                        }
                    },
                }
            } else {
                Err(EvalError::RightNotNumber(self))
            }
        } else {
            Err(EvalError::LeftNotNumber(self))
        }
    }
}

/// Evaluates `exp` in the environment `nv`; `fuel` bounds the depth of
/// nested evaluations that the evaluation needs, and only shapes the proof.
pub fn interp(exp: &Exp, nv: &Env, Ghost(fuel): Ghost<nat>) -> (r: Result<Value, EvalError>)
    requires
        eval(exp@, env_bindings(*nv), fuel).finished(),
    ensures
        outcome_of(r) == eval(exp@, env_bindings(*nv), fuel),
    decreases fuel,
{
    let ghost f = (fuel - 1) as nat;
    match exp {
        Exp::Number(i) => Ok(Value::Number(*i)),
        Exp::Boolean(b) => Ok(Value::Boolean(*b)),
        Exp::BinFn(op, l, r) => {
            let lv = match interp(l, nv, Ghost(f)) {
                Ok(v) => v,
                Err(e) => return Err(e),
            };
            let rv = match interp(r, nv, Ghost(f)) {
                Ok(v) => v,
                Err(e) => return Err(e),
            };
            op.apply(&lv, &rv)
        },
        Exp::Lambda(x, body) => Ok(Value::Closure(x.clone(), (**body).clone(), nv.clone())),
        Exp::Variable(x) => {
            if let Some(v) = nv.get(x.as_str()) {
                Ok(v.clone())
            } else {
                Err(EvalError::Unbound(x.clone()))
            }
        },
        Exp::If(c, t, e) => {
            match interp(c, nv, Ghost(f)) {
                Ok(Value::Boolean(b)) => {
                    if b {
                        interp(t, nv, Ghost(f))
                    } else {
                        interp(e, nv, Ghost(f))
                    }
                },
                Ok(_) => Err(EvalError::ConditionNotBoolean),
                Err(err) => Err(err),
            }
        },
        Exp::Let1(x, v, body) => {
            let value = match interp(v, nv, Ghost(f)) {
                Ok(value) => value,
                Err(e) => return Err(e),
            };
            let new_nv = nv.update(x.clone(), value);
            interp(body, &new_nv, Ghost(f))
        },
        Exp::Apply(fun, arg) => {
            let a = match interp(arg, nv, Ghost(f)) {
                Ok(a) => a,
                Err(e) => return Err(e),
            };
            match interp(fun, nv, Ghost(f)) {
                Ok(Value::Closure(x, body, cnv)) => {
                    let new_cnv = cnv.update(x, a);
                    interp(&body, &new_cnv, Ghost(f))
                },
                Ok(_) => Err(EvalError::NotAClosure),
                Err(e) => Err(e),
            }
        },
    }
}

/// More fuel never changes how an evaluation ends once it has ended: the
/// result of evaluation does not depend on the bound used to reason about it.
pub proof fn lemma_eval_fuel_mono(e: ExpModel, env: Map<Seq<char>, ValueModel>, f: nat, g: nat)
    requires
        f <= g,
        !(eval(e, env, f) is Unfinished),
    ensures
        eval(e, env, g) == eval(e, env, f),
    decreases f,
{
    let f1 = (f - 1) as nat;
    let g1 = (g - 1) as nat;
    match e {
        ExpModel::BinFn(op, l, r) => {
            lemma_eval_fuel_mono(*l, env, f1, g1);
            if eval(*l, env, f1) is Value {
                lemma_eval_fuel_mono(*r, env, f1, g1);
            }
        },
        ExpModel::If(c, t, el) => {
            lemma_eval_fuel_mono(*c, env, f1, g1);
            if let Outcome::Value(ValueModel::Boolean(b)) = eval(*c, env, f1) {
                if b {
                    lemma_eval_fuel_mono(*t, env, f1, g1);
                } else {
                    lemma_eval_fuel_mono(*el, env, f1, g1);
                }
            }
        },
        ExpModel::Let1(x, v, body) => {
            lemma_eval_fuel_mono(*v, env, f1, g1);
            if let Outcome::Value(val) = eval(*v, env, f1) {
                lemma_eval_fuel_mono(*body, env.insert(x, val), f1, g1);
            }
        },
        ExpModel::Apply(fun, arg) => {
            lemma_eval_fuel_mono(*arg, env, f1, g1);
            if let Outcome::Value(a) = eval(*arg, env, f1) {
                lemma_eval_fuel_mono(*fun, env, f1, g1);
                if let Outcome::Value(ValueModel::Closure(x, body, cenv)) = eval(*fun, env, f1) {
                    lemma_eval_fuel_mono(body, cenv.insert(x, a), f1, g1);
                }
            }
        },
        _ => {},
    }
}

/// Evaluation of `e` in `env` ends, with a value or an error, and without an
/// arithmetic overflow.
pub open spec fn evaluates(e: ExpModel, env: Map<Seq<char>, ValueModel>) -> bool {
    exists|f: nat| #[trigger] eval(e, env, f).finished()
}

/// How evaluation of `e` in `env` ends, where it [`evaluates`]; by
/// [`lemma_eval_fuel_mono`] any bound under which it ends gives this.
pub open spec fn evaluation(e: ExpModel, env: Map<Seq<char>, ValueModel>) -> Outcome {
    eval(e, env, choose|f: nat| #[trigger] eval(e, env, f).finished())
}

/// Whatever bound an evaluation ends under, it ends as [`evaluation`] says.
pub proof fn lemma_evaluation_unique(e: ExpModel, env: Map<Seq<char>, ValueModel>, f: nat)
    requires
        eval(e, env, f).finished(),
    ensures
        evaluates(e, env),
        evaluation(e, env) == eval(e, env, f),
{
    let g = choose|g: nat| #[trigger] eval(e, env, g).finished();
    if f <= g {
        lemma_eval_fuel_mono(e, env, f, g);
    } else {
        lemma_eval_fuel_mono(e, env, g, f);
    }
}

/// Applying a `lam` written in place is binding its parameter with `let1`:
/// `{{lam x body} arg}` evaluates as `{let1 {x arg} body}`, under any bound.
pub proof fn lemma_apply_lambda_is_let1(
    x: Seq<char>,
    body: ExpModel,
    arg: ExpModel,
    env: Map<Seq<char>, ValueModel>,
    fuel: nat,
)
    ensures
        eval(
            ExpModel::Apply(Box::new(ExpModel::Lambda(x, Box::new(body))), Box::new(arg)),
            env,
            fuel,
        ) == eval(ExpModel::Let1(x, Box::new(arg), Box::new(body)), env, fuel),
{
    let lam = ExpModel::Lambda(x, Box::new(body));
    if fuel >= 2 {
        let f = (fuel - 1) as nat;
        assert(eval(lam, env, f) == Outcome::Value(ValueModel::Closure(x, body, env)));
        if let Outcome::Value(a) = eval(arg, env, f) {
            assert(eval(ExpModel::Apply(Box::new(lam), Box::new(arg)), env, fuel) == eval(
                body,
                env.insert(x, a),
                f,
            ));
        }
    } else if fuel == 1 {
        assert(eval(arg, env, 0) is Unfinished);
    }
}

/// `if` evaluates only the branch that its condition picks: when the
/// condition gives `#t`, `{if c a b}` gives what `a` gives, whatever `b`
/// would do (an error, an overflow, or no end), and when it gives `#f`,
/// what `b` gives, whatever `a` would do.
pub proof fn lemma_if_evaluates_taken_branch_only(
    c: ExpModel,
    a: ExpModel,
    b: ExpModel,
    env: Map<Seq<char>, ValueModel>,
    f: nat,
)
    ensures
        eval(c, env, f) == Outcome::Value(ValueModel::Boolean(true)) ==> eval(
            ExpModel::If(Box::new(c), Box::new(a), Box::new(b)),
            env,
            f + 1,
        ) == eval(a, env, f),
        eval(c, env, f) == Outcome::Value(ValueModel::Boolean(false)) ==> eval(
            ExpModel::If(Box::new(c), Box::new(a), Box::new(b)),
            env,
            f + 1,
        ) == eval(b, env, f),
{
}

/// Numbers and booleans evaluate to themselves, and a `lam` to a closure
/// that captures the environment it is evaluated in.
pub proof fn lemma_constants_and_lambdas(
    n: i32,
    b: bool,
    x: Seq<char>,
    body: ExpModel,
    env: Map<Seq<char>, ValueModel>,
    f: nat,
)
    ensures
        eval(ExpModel::Number(n), env, f + 1) == Outcome::Value(ValueModel::Number(n)),
        eval(ExpModel::Boolean(b), env, f + 1) == Outcome::Value(ValueModel::Boolean(b)),
        eval(ExpModel::Lambda(x, Box::new(body)), env, f + 1) == Outcome::Value(
            ValueModel::Closure(x, body, env),
        ),
{
}

/// `let1` evaluates its body with the name bound to the value of the bound
/// expression, and nothing else: `{let1 {x v} body}` gives what `body` gives
/// in the environment extended with `x` bound to the value of `v`.
pub proof fn lemma_let1_binds_value(
    x: Seq<char>,
    v: ExpModel,
    body: ExpModel,
    env: Map<Seq<char>, ValueModel>,
    f: nat,
    val: ValueModel,
)
    ensures
        eval(v, env, f) == Outcome::Value(val) ==> eval(
            ExpModel::Let1(x, Box::new(v), Box::new(body)),
            env,
            f + 1,
        ) == eval(body, env.insert(x, val), f),
{
}

/// A variable gives the value that the environment binds it to.
pub proof fn lemma_variable_looks_up(x: Seq<char>, env: Map<Seq<char>, ValueModel>, f: nat)
    ensures
        env.contains_key(x) ==> eval(ExpModel::Variable(x), env, f + 1) == Outcome::Value(env[x]),
        !env.contains_key(x) ==> eval(ExpModel::Variable(x), env, f + 1) == Outcome::Error(
            EvalErrorModel::Unbound(x),
        ),
{
}

/// Applying a closure evaluates its body in the environment that the
/// closure captured, with the parameter bound to the argument's value.
pub proof fn lemma_apply_closure(
    fun: ExpModel,
    arg: ExpModel,
    env: Map<Seq<char>, ValueModel>,
    f: nat,
    a: ValueModel,
    x: Seq<char>,
    body: ExpModel,
    cenv: Map<Seq<char>, ValueModel>,
)
    ensures
        eval(arg, env, f) == Outcome::Value(a) && eval(fun, env, f) == Outcome::Value(
            ValueModel::Closure(x, body, cenv),
        ) ==> eval(ExpModel::Apply(Box::new(fun), Box::new(arg)), env, f + 1) == eval(
            body,
            cenv.insert(x, a),
            f,
        ),
{
}

/// Arithmetic on numbers is integer arithmetic, signs included: where the
/// exact sum, difference or product fits in an `i32`, it is the result, and
/// where it does not, the operation overflows.
pub proof fn lemma_arithmetic_is_exact(a: i32, b: i32)
    ensures
        i32::MIN <= a + b <= i32::MAX ==> spec_apply(
            BinOp::Add,
            ValueModel::Number(a),
            ValueModel::Number(b),
        ) == Outcome::Value(ValueModel::Number((a + b) as i32)),
        i32::MIN <= a - b <= i32::MAX ==> spec_apply(
            BinOp::Sub,
            ValueModel::Number(a),
            ValueModel::Number(b),
        ) == Outcome::Value(ValueModel::Number((a - b) as i32)),
        i32::MIN <= a * b <= i32::MAX ==> spec_apply(
            BinOp::Mul,
            ValueModel::Number(a),
            ValueModel::Number(b),
        ) == Outcome::Value(ValueModel::Number((a * b) as i32)),
        !(i32::MIN <= a + b <= i32::MAX) ==> spec_apply(
            BinOp::Add,
            ValueModel::Number(a),
            ValueModel::Number(b),
        ) is Overflow,
        !(i32::MIN <= a - b <= i32::MAX) ==> spec_apply(
            BinOp::Sub,
            ValueModel::Number(a),
            ValueModel::Number(b),
        ) is Overflow,
        !(i32::MIN <= a * b <= i32::MAX) ==> spec_apply(
            BinOp::Mul,
            ValueModel::Number(a),
            ValueModel::Number(b),
        ) is Overflow,
{
}

/// Division rounds toward zero: a quotient `q` of `a` by `b != 0` leaves a
/// remainder `a - q * b` smaller than `b` in size and with the sign of `a`
/// (or zero); dividing by zero is an error.
pub proof fn lemma_division_truncates(a: i32, b: i32)
    ensures
        b == 0 ==> spec_apply(BinOp::Div, ValueModel::Number(a), ValueModel::Number(b))
            == Outcome::Error(EvalErrorModel::DivisionByZero),
        b != 0 && !(a == i32::MIN && b == -1) ==> (spec_apply(
            BinOp::Div,
            ValueModel::Number(a),
            ValueModel::Number(b),
        ) matches Outcome::Value(ValueModel::Number(q)) && {
            let r = a - q * b;
            &&& abs(r) < abs(b as int)
            &&& (r == 0 || (r < 0) == (a < 0))
        }),
{
    if b != 0 && !(a == i32::MIN && b == -1) {
        let x = abs(a as int);
        let y = abs(b as int);
        let q0 = x / y;
        assert(x == q0 * y + x % y && 0 <= x % y < y) by (nonlinear_arith)
            requires
                y > 0,
                x >= 0,
                q0 == x / y,
        ;
        assert(0 <= q0 <= x) by (nonlinear_arith)
            requires
                y >= 1,
                x >= 0,
                q0 == x / y,
        ;
        let q = trunc_div(a as int, b as int);
        let m = x % y;
        assert(q0 * y == x - m);
        if a >= 0 && b > 0 {
            assert(q * b == q0 * y);
        } else if a < 0 && b < 0 {
            assert(q * b == -(q0 * y)) by (nonlinear_arith)
                requires
                    q == q0,
                    b == -y,
            ;
        } else if a >= 0 {
            assert(q * b == q0 * y) by (nonlinear_arith)
                requires
                    q == -q0,
                    b == -y,
            ;
        } else {
            assert(q * b == -(q0 * y)) by (nonlinear_arith)
                requires
                    q == -q0,
                    b == y,
            ;
        }
        if y >= 2 {
            assert(q0 <= x / 2) by (nonlinear_arith)
                requires
                    y >= 2,
                    x >= 0,
                    q0 == x / y,
            ;
        }
        assert(i32::MIN <= q <= i32::MAX);
    }
}

/// Evaluates `exp` in an empty environment.
pub fn calc(exp: &Exp) -> (r: Result<Value, EvalError>)
    requires
        evaluates(exp@, Map::empty()),
    ensures
        outcome_of(r) == evaluation(exp@, Map::empty()),
{
    let ghost f = choose|f: nat| #[trigger] eval(exp@, Map::empty(), f).finished();
    let nv = Env::new();
    interp(exp, &nv, Ghost(f))
}

/// How a value is shown: the number in decimal, `#t`, `#f`, or `#closure`.
pub open spec fn spec_show_value(v: ValueModel) -> Seq<char> {
    match v {
        ValueModel::Number(n) => int_decimal(n as int),
        ValueModel::Boolean(b) => if b {
            "#t"@
        } else {
            "#f"@
        },
        ValueModel::Closure(..) => "#closure"@,
    }
}

/// How values are shown: a number in full, so that reading the shown text
/// gives the number back; `#t`, `#f` for booleans; `#closure` for closures.
pub proof fn lemma_values_shown(n: i32, x: Seq<char>, body: ExpModel, env: Map<Seq<char>, ValueModel>)
    ensures
        spec_read_sexp(spec_show_value(ValueModel::Number(n))) == Ok::<
            (SExpModel, Seq<char>),
            ReadErrorModel,
        >((SExpModel::Number(n), Seq::empty())),
        spec_show_value(ValueModel::Boolean(true)) == seq!['#', 't'],
        spec_show_value(ValueModel::Boolean(false)) == seq!['#', 'f'],
        spec_show_value(ValueModel::Closure(x, body, env)) == seq![
            '#', 'c', 'l', 'o', 's', 'u', 'r', 'e',
        ],
{
    lemma_read_decimal_roundtrip(n);
    reveal_strlit("#t");
    reveal_strlit("#f");
    reveal_strlit("#closure");
    assert("#t"@ =~= seq!['#', 't']);
    assert("#f"@ =~= seq!['#', 'f']);
    assert("#closure"@ =~= seq!['#', 'c', 'l', 'o', 's', 'u', 'r', 'e']);
}

impl Value {
    /// How the value is shown: the number in decimal, `#t`, `#f`, or
    /// `#closure`.
    pub fn to_string(&self) -> (r: String)
        ensures
            r@ == spec_show_value(self@),
    {
        let mut out = String::new();
        match self {
            Value::Number(n) => push_decimal(&mut out, *n),
            Value::Boolean(b) => if *b {
                out.append("#t");
            } else {
                out.append("#f");
            },
            Value::Closure(..) => out.append("#closure"),
        }
        assert(out@ =~= spec_show_value(self@));
        out
    }
}

} // verus!
