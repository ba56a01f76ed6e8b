//! The evaluator: a big-step tree-walking interpreter with lexical
//! closures and recursive closures that rebind themselves on each call.
//!
//! The whole behaviour is given by the specification function [`eval_spec`];
//! the executable entry point [`eval`] returns exactly what it says.
//! Because an ill-founded `let rec` program may run forever, evaluation is
//! metered by a fuel that only calls of a closure body consume; an
//! exhausted fuel surfaces as [`EvalError::OutOfFuel`].

use vstd::prelude::*;

use crate::ast::{Expr, Expression};
use crate::environment::Environment;
use crate::value::{Val, Value};

verus! {

/// Model of an evaluation error.
pub ghost enum EvalErr {
    InvalidExpression,
    UndefinedVariable(Seq<char>),
    OutOfFuel,
}

/// An error raised by the evaluator. All dynamic failures are undefined
/// variables, operator or scrutinee shape mismatches (including an
/// arithmetic result that does not fit the machine integer), or an
/// exhausted fuel.
#[derive(Debug)]
pub enum EvalError {
    InvalidExpression,
    UndefinedVariable(String),
    OutOfFuel,
}

impl View for EvalError {
    type V = EvalErr;

    open spec fn view(&self) -> EvalErr {
        match self {
            EvalError::InvalidExpression => EvalErr::InvalidExpression,
            EvalError::UndefinedVariable(x) => EvalErr::UndefinedVariable(x@),
            EvalError::OutOfFuel => EvalErr::OutOfFuel,
        }
    }
}

/// What evaluating an expression yields: a value, or an error.
pub ghost enum Outcome {
    Value(Val),
    Error(EvalErr),
}

/// Whether `i` fits the machine integers of the object language.
pub open spec fn fits_integer(i: int) -> bool {
    isize::MIN as int <= i <= isize::MAX as int
}

/// Big-step evaluation. Subexpressions evaluate left to right, each under
/// the ambient environment; `let`, `fun` parameters, `let rec` and `match`
/// extend the environment locally. Entering a closure body consumes one
/// unit of fuel.
pub open spec fn eval_spec(env: Map<Seq<char>, Val>, e: Expr, fuel: nat) -> Outcome
    decreases fuel, e,
{
    match e {
        Expr::Integer(n) => Outcome::Value(Val::Integer(n)),
        Expr::Bool(b) => Outcome::Value(Val::Bool(b)),
        Expr::Variable(x) => if env.contains_key(x) {
            Outcome::Value(env[x])
        } else {
            Outcome::Error(EvalErr::UndefinedVariable(x))
        },
        Expr::Plus(e1, e2) => eval_arith(eval_spec(env, *e1, fuel), eval_spec(env, *e2, fuel), ArithmeticOperation::Plus),
        Expr::Minus(e1, e2) => eval_arith(eval_spec(env, *e1, fuel), eval_spec(env, *e2, fuel), ArithmeticOperation::Minus),
        Expr::Times(e1, e2) => eval_arith(eval_spec(env, *e1, fuel), eval_spec(env, *e2, fuel), ArithmeticOperation::Times),
        Expr::LessThan(e1, e2) => eval_less_than(
            eval_spec(env, *e1, fuel),
            eval_spec(env, *e2, fuel),
        ),
        Expr::If { predicate, consequent, alternative } => match eval_spec(env, *predicate, fuel) {
            Outcome::Value(Val::Bool(true)) => eval_spec(env, *consequent, fuel),
            Outcome::Value(Val::Bool(false)) => eval_spec(env, *alternative, fuel),
            Outcome::Value(_) => Outcome::Error(EvalErr::InvalidExpression),
            err => err,
        },
        Expr::Let { variable, bound, body } => match eval_spec(env, *bound, fuel) {
            Outcome::Value(v) => eval_spec(env.insert(variable, v), *body, fuel),
            err => err,
        },
        Expr::Fun { parameter, body } => Outcome::Value(
            Val::Closure { environment: env, parameter, body: *body },
        ),
        Expr::App { function, argument } => match eval_spec(env, *function, fuel) {
            Outcome::Value(f) => match eval_spec(env, *argument, fuel) {
                Outcome::Value(a) => if fuel == 0 {
                    Outcome::Error(EvalErr::OutOfFuel)
                } else {
                    match f {
                        Val::Closure { environment, parameter, body } => eval_spec(
                            environment.insert(parameter, a),
                            body,
                            (fuel - 1) as nat,
                        ),
                        Val::RecClosure { environment, call_name, parameter, body } => eval_spec(
                            environment.insert(call_name, f).insert(parameter, a),
                            body,
                            (fuel - 1) as nat,
                        ),
                        _ => Outcome::Error(EvalErr::InvalidExpression),
                    }
                },
                err => err,
            },
            err => err,
        },
        Expr::LetRec { variable, bound_function, body } => match *bound_function {
            Expr::Fun { parameter, body: function_body } => eval_spec(
                env.insert(
                    variable,
                    Val::RecClosure {
                        environment: env,
                        call_name: variable,
                        parameter,
                        body: *function_body,
                    },
                ),
                *body,
                fuel,
            ),
            _ => eval_spec(env, *body, fuel),
        },
        Expr::Nil => Outcome::Value(Val::Nil),
        Expr::Cons { car, cdr } => match eval_spec(env, *car, fuel) {
            Outcome::Value(v1) => match eval_spec(env, *cdr, fuel) {
                Outcome::Value(v2) => Outcome::Value(
                    Val::Cons { car: Box::new(v1), cdr: Box::new(v2) },
                ),
                err => err,
            },
            err => err,
        },
        Expr::Match { scrutinee, nil_case, car_name, cdr_name, cons_case } => match eval_spec(
            env,
            *scrutinee,
            fuel,
        ) {
            Outcome::Value(Val::Nil) => eval_spec(env, *nil_case, fuel),
            Outcome::Value(Val::Cons { car, cdr }) => eval_spec(
                env.insert(car_name, *car).insert(cdr_name, *cdr),
                *cons_case,
                fuel,
            ),
            Outcome::Value(_) => Outcome::Error(EvalErr::InvalidExpression),
            err => err,
        },
    }
}

/// The outcome of a binary arithmetic operator, given the outcomes of its
/// operands: both must be integers and the result must fit.
pub open spec fn eval_arith(r1: Outcome, r2: Outcome, operation: ArithmeticOperation) -> Outcome {
    match r1 {
        Outcome::Value(v1) => match r2 {
            Outcome::Value(v2) => match (v1, v2) {
                (Val::Integer(a), Val::Integer(b)) => {
                    let i = arith_value(operation, a, b);
                    if fits_integer(i) {
                        Outcome::Value(Val::Integer(i))
                    } else {
                        Outcome::Error(EvalErr::InvalidExpression)
                    }
                },
                _ => Outcome::Error(EvalErr::InvalidExpression),
            },
            err => err,
        },
        err => err,
    }
}

/// The exact integer an arithmetic operator denotes.
pub open spec fn arith_value(operation: ArithmeticOperation, a: int, b: int) -> int {
    match operation {
        ArithmeticOperation::Plus => a + b,
        ArithmeticOperation::Minus => a - b,
        ArithmeticOperation::Times => a * b,
    }
}

/// The outcome of the comparison operator, given the outcomes of its
/// operands: both must be integers.
pub open spec fn eval_less_than(r1: Outcome, r2: Outcome) -> Outcome {
    match r1 {
        Outcome::Value(v1) => match r2 {
            Outcome::Value(v2) => match (v1, v2) {
                (Val::Integer(a), Val::Integer(b)) => Outcome::Value(Val::Bool(a < b)),
                _ => Outcome::Error(EvalErr::InvalidExpression),
            },
            err => err,
        },
        err => err,
    }
}

/// A binary arithmetic operator of the object language.
#[derive(Debug, Clone, Copy)]
pub enum ArithmeticOperation {
    Plus,
    Minus,
    Times,
}

/// Evaluates `expression` under `environment`. On success the returned
/// environment is the input environment, unchanged: the evaluator extends
/// environments only locally.
pub fn eval(environment: Environment, expression: Expression, fuel: u64) -> (r: Result<
    (Environment, Value),
    EvalError,
>)
    ensures
        match r {
            Ok((post, v)) => post == environment && eval_spec(environment@, expression@, fuel as nat)
                == Outcome::Value(v@),
            Err(e) => eval_spec(environment@, expression@, fuel as nat) == Outcome::Error(e@),
        },
    decreases fuel, expression@, 1int,
{
    match expression {
        Expression::Integer(n) => eval_integer(environment, n),
        Expression::Bool(b) => eval_bool(environment, b),
        Expression::Variable(variable) => eval_variable(environment, variable),
        Expression::Plus { expression1, expression2 } => {
            let ghost whole = Expr::Plus(Box::new(expression1@), Box::new(expression2@));
            eval_arithmetic_operation(
                environment,
                *expression1,
                *expression2,
                ArithmeticOperation::Plus,
                fuel,
                Ghost(whole),
            )
        },
        Expression::Minus { expression1, expression2 } => {
            let ghost whole = Expr::Minus(Box::new(expression1@), Box::new(expression2@));
            eval_arithmetic_operation(
                environment,
                *expression1,
                *expression2,
                ArithmeticOperation::Minus,
                fuel,
                Ghost(whole),
            )
        },
        Expression::Times { expression1, expression2 } => {
            let ghost whole = Expr::Times(Box::new(expression1@), Box::new(expression2@));
            eval_arithmetic_operation(
                environment,
                *expression1,
                *expression2,
                ArithmeticOperation::Times,
                fuel,
                Ghost(whole),
            )
        },
        Expression::LessThan { expression1, expression2 } => {
            let ghost whole = Expr::LessThan(Box::new(expression1@), Box::new(expression2@));
            eval_comparison_operation(
                environment,
                *expression1,
                *expression2,
                fuel,
                Ghost(whole),
            )
        },
        Expression::If { predicate, consequent, alternative } => {
            let ghost whole = expression@;
            eval_if(environment, *predicate, *consequent, *alternative, fuel, Ghost(whole))
        },
        Expression::Let { variable, bound, body } => {
            let ghost whole = expression@;
            eval_let(environment, variable, *bound, *body, fuel, Ghost(whole))
        },
        Expression::Fun { parameter, body } => eval_fun(environment, parameter, *body),
        Expression::App { function, argument } => {
            let ghost whole = expression@;
            eval_app(environment, *function, *argument, fuel, Ghost(whole))
        },
        Expression::LetRec { variable, bound_function, body } => {
            let ghost whole = expression@;
            eval_let_rec(environment, variable, *bound_function, *body, fuel, Ghost(whole))
        },
        Expression::Nil => eval_nil(environment),
        Expression::Cons { car, cdr } => {
            let ghost whole = expression@;
            eval_cons(environment, *car, *cdr, fuel, Ghost(whole))
        },
        Expression::Match { scrutinee, nil_case, cons_pattern } => {
            let ghost whole = expression@;
            eval_match(
                environment,
                *scrutinee,
                *nil_case,
                (cons_pattern.0, cons_pattern.1, *cons_pattern.2),
                fuel,
                Ghost(whole),
            )
        },
    }
}

fn eval_integer(environment: Environment, n: isize) -> (r: Result<(Environment, Value), EvalError>)
    ensures
        r matches Ok((post, v)) && post == environment && v@ == Val::Integer(n as int),
{
    Ok((environment, Value::Integer(n)))
}

fn eval_bool(environment: Environment, b: bool) -> (r: Result<(Environment, Value), EvalError>)
    ensures
        r matches Ok((post, v)) && post == environment && v@ == Val::Bool(b),
{
    Ok((environment, Value::Bool(b)))
}

fn eval_variable(environment: Environment, variable: String) -> (r: Result<
    (Environment, Value),
    EvalError,
>)
    ensures
        match r {
            Ok((post, v)) => post == environment && environment@.contains_key(variable@) && v@
                == environment@[variable@],
            Err(e) => !environment@.contains_key(variable@) && e@ == EvalErr::UndefinedVariable(
                variable@,
            ),
        },
{
    match environment.get(&variable) {
        Some(value) => Ok((environment, value)),
        None => Err(EvalError::UndefinedVariable(variable)),
    }
}

fn eval_arithmetic_operation(
    environment: Environment,
    expression1: Expression,
    expression2: Expression,
    operation: ArithmeticOperation,
    fuel: u64,
    Ghost(whole): Ghost<Expr>,
) -> (r: Result<(Environment, Value), EvalError>)
    requires
        (whole == Expr::Plus(Box::new(expression1@), Box::new(expression2@)) && operation
            == ArithmeticOperation::Plus) || (whole == Expr::Minus(
            Box::new(expression1@),
            Box::new(expression2@),
        ) && operation == ArithmeticOperation::Minus) || (whole == Expr::Times(
            Box::new(expression1@),
            Box::new(expression2@),
        ) && operation == ArithmeticOperation::Times),
    ensures
        match r {
            Ok((post, v)) => post == environment && eval_spec(environment@, whole, fuel as nat)
                == Outcome::Value(v@),
            Err(e) => eval_spec(environment@, whole, fuel as nat) == Outcome::Error(e@),
        },
    decreases fuel, whole, 0int,
{
    let (_, value1) = eval(environment.clone(), expression1, fuel)?;
    let (_, value2) = eval(environment.clone(), expression2, fuel)?;

    match (value1, value2) {
        (Value::Integer(a), Value::Integer(b)) => {
            let result = match operation {
                ArithmeticOperation::Plus => a.checked_add(b),
                ArithmeticOperation::Minus => a.checked_sub(b),
                ArithmeticOperation::Times => a.checked_mul(b),
            };
            match result {
                Some(n) => Ok((environment, Value::Integer(n))),
                None => Err(EvalError::InvalidExpression),
            }
        },
        _ => Err(EvalError::InvalidExpression),
    }
}

fn eval_comparison_operation(
    environment: Environment,
    expression1: Expression,
    expression2: Expression,
    fuel: u64,
    Ghost(whole): Ghost<Expr>,
) -> (r: Result<(Environment, Value), EvalError>)
    requires
        whole == Expr::LessThan(Box::new(expression1@), Box::new(expression2@)),
    ensures
        match r {
            Ok((post, v)) => post == environment && eval_spec(environment@, whole, fuel as nat)
                == Outcome::Value(v@),
            Err(e) => eval_spec(environment@, whole, fuel as nat) == Outcome::Error(e@),
        },
    decreases fuel, whole, 0int,
{
    let (_, value1) = eval(environment.clone(), expression1, fuel)?;
    let (_, value2) = eval(environment.clone(), expression2, fuel)?;

    match (value1, value2) {
        (Value::Integer(a), Value::Integer(b)) => Ok((environment, Value::Bool(a < b))),
        _ => Err(EvalError::InvalidExpression),
    }
}

fn eval_if(
    environment: Environment,
    predicate: Expression,
    consequent: Expression,
    alternative: Expression,
    fuel: u64,
    Ghost(whole): Ghost<Expr>,
) -> (r: Result<(Environment, Value), EvalError>)
    requires
        whole == (Expr::If {
            predicate: Box::new(predicate@),
            consequent: Box::new(consequent@),
            alternative: Box::new(alternative@),
        }),
    ensures
        match r {
            Ok((post, v)) => post == environment && eval_spec(environment@, whole, fuel as nat)
                == Outcome::Value(v@),
            Err(e) => eval_spec(environment@, whole, fuel as nat) == Outcome::Error(e@),
        },
    decreases fuel, whole, 0int,
{
    let (_, value) = eval(environment.clone(), predicate, fuel)?;

    match value {
        Value::Bool(true) => eval(environment, consequent, fuel),
        Value::Bool(false) => eval(environment, alternative, fuel),
        _ => Err(EvalError::InvalidExpression),
    }
}

fn eval_let(
    environment: Environment,
    variable: String,
    bound: Expression,
    body: Expression,
    fuel: u64,
    Ghost(whole): Ghost<Expr>,
) -> (r: Result<(Environment, Value), EvalError>)
    requires
        whole == (Expr::Let {
            variable: variable@,
            bound: Box::new(bound@),
            body: Box::new(body@),
        }),
    ensures
        match r {
            Ok((post, v)) => post == environment && eval_spec(environment@, whole, fuel as nat)
                == Outcome::Value(v@),
            Err(e) => eval_spec(environment@, whole, fuel as nat) == Outcome::Error(e@),
        },
    decreases fuel, whole, 0int,
{
    let (_, bound_value) = eval(environment.clone(), bound, fuel)?;
    let extended = environment.clone().bind(variable, bound_value);
    let (_, body_value) = eval(extended, body, fuel)?;

    Ok((environment, body_value))
}

fn eval_fun(environment: Environment, parameter: String, body: Expression) -> (r: Result<
    (Environment, Value),
    EvalError,
>)
    ensures
        r matches Ok((post, v)) && post == environment && v@ == (Val::Closure {
            environment: environment@,
            parameter: parameter@,
            body: body@,
        }),
{
    let captured_environment = environment.clone();

    Ok((environment, Value::Closure { environment: captured_environment, parameter, body }))
}

fn eval_app(
    environment: Environment,
    function: Expression,
    argument: Expression,
    fuel: u64,
    Ghost(whole): Ghost<Expr>,
) -> (r: Result<(Environment, Value), EvalError>)
    requires
        whole == (Expr::App { function: Box::new(function@), argument: Box::new(argument@) }),
    ensures
        match r {
            Ok((post, v)) => post == environment && eval_spec(environment@, whole, fuel as nat)
                == Outcome::Value(v@),
            Err(e) => eval_spec(environment@, whole, fuel as nat) == Outcome::Error(e@),
        },
    decreases fuel, whole, 0int,
{
    let (_, closure) = eval(environment.clone(), function, fuel)?;
    let (_, argument_value) = eval(environment.clone(), argument, fuel)?;

    if fuel == 0 {
        return Err(EvalError::OutOfFuel);
    }

    match closure {
        Value::Closure { environment: captured, parameter, body } => {
            let extended = captured.bind(parameter, argument_value);
            let (_, result) = eval(extended, body, fuel - 1)?;
            Ok((environment, result))
        },
        Value::RecClosure { environment: captured, call_name, parameter, body } => {
            let rec_closure = Value::RecClosure {
                environment: captured.clone(),
                call_name: call_name.clone(),
                parameter: parameter.clone(),
                body: body.clone(),
            };
            let rebound = captured.bind(call_name, rec_closure);
            let extended = rebound.bind(parameter, argument_value);
            let (_, result) = eval(extended, body, fuel - 1)?;
            Ok((environment, result))
        },
        _ => Err(EvalError::InvalidExpression),
    }
}

fn eval_let_rec(
    environment: Environment,
    variable: String,
    bound_function: Expression,
    body: Expression,
    fuel: u64,
    Ghost(whole): Ghost<Expr>,
) -> (r: Result<(Environment, Value), EvalError>)
    requires
        whole == (Expr::LetRec {
            variable: variable@,
            bound_function: Box::new(bound_function@),
            body: Box::new(body@),
        }),
    ensures
        match r {
            Ok((post, v)) => post == environment && eval_spec(environment@, whole, fuel as nat)
                == Outcome::Value(v@),
            Err(e) => eval_spec(environment@, whole, fuel as nat) == Outcome::Error(e@),
        },
    decreases fuel, whole, 0int,
{
    if let Expression::Fun { parameter, body: function_body } = bound_function {
        let captured_environment = environment.clone();
        let call_name = variable.clone();
        let extended = environment.clone().bind(
            variable,
            Value::RecClosure {
                environment: captured_environment,
                call_name,
                parameter,
                body: *function_body,
            },
        );
        let (_, result) = eval(extended, body, fuel)?;
        return Ok((environment, result));
    }

    let (_, result) = eval(environment.clone(), body, fuel)?;
    Ok((environment, result))
}

fn eval_nil(environment: Environment) -> (r: Result<(Environment, Value), EvalError>)
    ensures
        r matches Ok((post, v)) && post == environment && v@ == Val::Nil,
{
    Ok((environment, Value::Nil))
}

fn eval_cons(
    environment: Environment,
    car: Expression,
    cdr: Expression,
    fuel: u64,
    Ghost(whole): Ghost<Expr>,
) -> (r: Result<(Environment, Value), EvalError>)
    requires
        whole == (Expr::Cons { car: Box::new(car@), cdr: Box::new(cdr@) }),
    ensures
        match r {
            Ok((post, v)) => post == environment && eval_spec(environment@, whole, fuel as nat)
                == Outcome::Value(v@),
            Err(e) => eval_spec(environment@, whole, fuel as nat) == Outcome::Error(e@),
        },
    decreases fuel, whole, 0int,
{
    let (_, car_value) = eval(environment.clone(), car, fuel)?;
    let (_, cdr_value) = eval(environment.clone(), cdr, fuel)?;

    Ok((
        environment,
        Value::Cons { car: Box::new(car_value), cdr: Box::new(cdr_value) },
    ))
}

fn eval_match(
    environment: Environment,
    scrutinee: Expression,
    nil_case: Expression,
    cons_pattern: (String, String, Expression),
    fuel: u64,
    Ghost(whole): Ghost<Expr>,
) -> (r: Result<(Environment, Value), EvalError>)
    requires
        whole == (Expr::Match {
            scrutinee: Box::new(scrutinee@),
            nil_case: Box::new(nil_case@),
            car_name: cons_pattern.0@,
            cdr_name: cons_pattern.1@,
            cons_case: Box::new(cons_pattern.2@),
        }),
    ensures
        match r {
            Ok((post, v)) => post == environment && eval_spec(environment@, whole, fuel as nat)
                == Outcome::Value(v@),
            Err(e) => eval_spec(environment@, whole, fuel as nat) == Outcome::Error(e@),
        },
    decreases fuel, whole, 0int,
{
    let (_, scrutinee_value) = eval(environment.clone(), scrutinee, fuel)?;

    match scrutinee_value {
        Value::Nil => {
            let (_, result) = eval(environment.clone(), nil_case, fuel)?;
            Ok((environment, result))
        },
        Value::Cons { car, cdr } => {
            let (car_variable, cdr_variable, cons_case) = cons_pattern;
            let extended = environment.clone().bind(car_variable, *car).bind(
                cdr_variable,
                *cdr,
            );
            let (_, result) = eval(extended, cons_case, fuel)?;
            Ok((environment, result))
        },
        _ => Err(EvalError::InvalidExpression),
    }
}

/// Evaluation is deterministic: one environment, expression and fuel
/// determine one outcome.
pub proof fn lemma_eval_deterministic(
    env1: Map<Seq<char>, Val>,
    env2: Map<Seq<char>, Val>,
    e1: Expr,
    e2: Expr,
    fuel1: nat,
    fuel2: nat,
)
    requires
        env1 == env2,
        e1 == e2,
        fuel1 == fuel2,
    ensures
        eval_spec(env1, e1, fuel1) == eval_spec(env2, e2, fuel2),
{
}

/// Shadowing: when `e1` evaluates to `v1` and, under `x` bound to `v1`,
/// `e2` evaluates to `v2`, then `let x = e1 in let x = e2 in x` evaluates
/// to `v2`.
pub proof fn lemma_shadowing(
    env: Map<Seq<char>, Val>,
    x: Seq<char>,
    e1: Expr,
    e2: Expr,
    v1: Val,
    v2: Val,
    fuel: nat,
)
    requires
        eval_spec(env, e1, fuel) == Outcome::Value(v1),
        eval_spec(env.insert(x, v1), e2, fuel) == Outcome::Value(v2),
    ensures
        eval_spec(
            env,
            Expr::Let {
                variable: x,
                bound: Box::new(e1),
                body: Box::new(
                    Expr::Let {
                        variable: x,
                        bound: Box::new(e2),
                        body: Box::new(Expr::Variable(x)),
                    },
                ),
            },
            fuel,
        ) == Outcome::Value(v2),
{
    reveal_with_fuel(eval_spec, 4);
    let inner = env.insert(x, v1).insert(x, v2);
    assert(inner.contains_key(x) && inner[x] == v2);
}

/// A worked scenario: under any environment and any fuel, `3 + 5 * 2`
/// evaluates to `13`.
pub proof fn lemma_arithmetic_scenario(env: Map<Seq<char>, Val>, fuel: nat)
    ensures
        eval_spec(
            env,
            Expr::Plus(
                Box::new(Expr::Integer(3)),
                Box::new(Expr::Times(Box::new(Expr::Integer(5)), Box::new(Expr::Integer(2)))),
            ),
            fuel,
        ) == Outcome::Value(Val::Integer(13)),
{
    reveal_with_fuel(eval_spec, 3);
}

/// A worked scenario: under any environment, any fuel and any variable
/// name, `let x = 10 in x + 5` evaluates to `15`.
pub proof fn lemma_let_scenario(env: Map<Seq<char>, Val>, x: Seq<char>, fuel: nat)
    ensures
        eval_spec(
            env,
            Expr::Let {
                variable: x,
                bound: Box::new(Expr::Integer(10)),
                body: Box::new(
                    Expr::Plus(Box::new(Expr::Variable(x)), Box::new(Expr::Integer(5))),
                ),
            },
            fuel,
        ) == Outcome::Value(Val::Integer(15)),
{
    reveal_with_fuel(eval_spec, 4);
    let extended = env.insert(x, Val::Integer(10));
    assert(extended.contains_key(x) && extended[x] == Val::Integer(10));
}

/// A worked scenario: under any environment and any fuel,
/// `if 5 < 10 then 20 else 30` evaluates to `20`.
pub proof fn lemma_if_scenario(env: Map<Seq<char>, Val>, fuel: nat)
    ensures
        eval_spec(
            env,
            Expr::If {
                predicate: Box::new(
                    Expr::LessThan(Box::new(Expr::Integer(5)), Box::new(Expr::Integer(10))),
                ),
                consequent: Box::new(Expr::Integer(20)),
                alternative: Box::new(Expr::Integer(30)),
            },
            fuel,
        ) == Outcome::Value(Val::Integer(20)),
{
    reveal_with_fuel(eval_spec, 3);
}

/// A worked scenario: under any environment, any fuel and any two
/// distinct pattern names, `match 1 :: 2 :: [] with [] -> 0 | hd :: tl ->
/// hd` evaluates to `1`.
pub proof fn lemma_match_scenario(env: Map<Seq<char>, Val>, hd: Seq<char>, tl: Seq<char>, fuel: nat)
    requires
        hd != tl,
    ensures
        eval_spec(
            env,
            Expr::Match {
                scrutinee: Box::new(
                    Expr::Cons {
                        car: Box::new(Expr::Integer(1)),
                        cdr: Box::new(
                            Expr::Cons {
                                car: Box::new(Expr::Integer(2)),
                                cdr: Box::new(Expr::Nil),
                            },
                        ),
                    },
                ),
                nil_case: Box::new(Expr::Integer(0)),
                car_name: hd,
                cdr_name: tl,
                cons_case: Box::new(Expr::Variable(hd)),
            },
            fuel,
        ) == Outcome::Value(Val::Integer(1)),
{
    reveal_with_fuel(eval_spec, 4);
    let tail = Val::Cons { car: Box::new(Val::Integer(2)), cdr: Box::new(Val::Nil) };
    let extended = env.insert(hd, Val::Integer(1)).insert(tl, tail);
    assert(extended.contains_key(hd) && extended[hd] == Val::Integer(1));
}

} // verus!
