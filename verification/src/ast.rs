//! The abstract syntax of the object language: an immutable expression tree.

use vstd::prelude::*;

verus! {

/// Mathematical model of an expression: variable names are character
/// sequences and integer literals are unbounded integers.
pub ghost enum Expr {
    Integer(int),
    Bool(bool),
    Variable(Seq<char>),
    Plus(Box<Expr>, Box<Expr>),
    Minus(Box<Expr>, Box<Expr>),
    Times(Box<Expr>, Box<Expr>),
    LessThan(Box<Expr>, Box<Expr>),
    If { predicate: Box<Expr>, consequent: Box<Expr>, alternative: Box<Expr> },
    Let { variable: Seq<char>, bound: Box<Expr>, body: Box<Expr> },
    Fun { parameter: Seq<char>, body: Box<Expr> },
    App { function: Box<Expr>, argument: Box<Expr> },
    LetRec { variable: Seq<char>, bound_function: Box<Expr>, body: Box<Expr> },
    Nil,
    Cons { car: Box<Expr>, cdr: Box<Expr> },
    Match {
        scrutinee: Box<Expr>,
        nil_case: Box<Expr>,
        car_name: Seq<char>,
        cdr_name: Seq<char>,
        cons_case: Box<Expr>,
    },
}

/// An expression of the object language. Every subtree is exclusively owned
/// by its parent.
#[derive(Debug)]
pub enum Expression {
    Integer(isize),
    Bool(bool),
    Variable(String),
    Plus { expression1: Box<Expression>, expression2: Box<Expression> },
    Minus { expression1: Box<Expression>, expression2: Box<Expression> },
    Times { expression1: Box<Expression>, expression2: Box<Expression> },
    LessThan { expression1: Box<Expression>, expression2: Box<Expression> },
    If {
        predicate: Box<Expression>,
        consequent: Box<Expression>,
        alternative: Box<Expression>,
    },
    Let { variable: String, bound: Box<Expression>, body: Box<Expression> },
    Fun { parameter: String, body: Box<Expression> },
    App { function: Box<Expression>, argument: Box<Expression> },
    LetRec {
        variable: String,
        bound_function: Box<Expression>,
        body: Box<Expression>,
    },
    Nil,
    Cons { car: Box<Expression>, cdr: Box<Expression> },
    Match {
        scrutinee: Box<Expression>,
        nil_case: Box<Expression>,
        cons_pattern: (String, String, Box<Expression>),
    },
}

/// The model of an expression.
pub open spec fn expr_view(e: Expression) -> Expr
    decreases e,
{
    match e {
        Expression::Integer(n) => Expr::Integer(n as int),
        Expression::Bool(b) => Expr::Bool(b),
        Expression::Variable(x) => Expr::Variable(x@),
        Expression::Plus { expression1, expression2 } => Expr::Plus(
            Box::new(expr_view(*expression1)),
            Box::new(expr_view(*expression2)),
        ),
        Expression::Minus { expression1, expression2 } => Expr::Minus(
            Box::new(expr_view(*expression1)),
            Box::new(expr_view(*expression2)),
        ),
        Expression::Times { expression1, expression2 } => Expr::Times(
            Box::new(expr_view(*expression1)),
            Box::new(expr_view(*expression2)),
        ),
        Expression::LessThan { expression1, expression2 } => Expr::LessThan(
            Box::new(expr_view(*expression1)),
            Box::new(expr_view(*expression2)),
        ),
        Expression::If { predicate, consequent, alternative } => Expr::If {
            predicate: Box::new(expr_view(*predicate)),
            consequent: Box::new(expr_view(*consequent)),
            alternative: Box::new(expr_view(*alternative)),
        },
        Expression::Let { variable, bound, body } => Expr::Let {
            variable: variable@,
            bound: Box::new(expr_view(*bound)),
            body: Box::new(expr_view(*body)),
        },
        Expression::Fun { parameter, body } => Expr::Fun {
            parameter: parameter@,
            body: Box::new(expr_view(*body)),
        },
        Expression::App { function, argument } => Expr::App {
            function: Box::new(expr_view(*function)),
            argument: Box::new(expr_view(*argument)),
        },
        Expression::LetRec { variable, bound_function, body } => Expr::LetRec {
            variable: variable@,
            bound_function: Box::new(expr_view(*bound_function)),
            body: Box::new(expr_view(*body)),
        },
        Expression::Nil => Expr::Nil,
        Expression::Cons { car, cdr } => Expr::Cons {
            car: Box::new(expr_view(*car)),
            cdr: Box::new(expr_view(*cdr)),
        },
        Expression::Match { scrutinee, nil_case, cons_pattern } => Expr::Match {
            scrutinee: Box::new(expr_view(*scrutinee)),
            nil_case: Box::new(expr_view(*nil_case)),
            car_name: cons_pattern.0@,
            cdr_name: cons_pattern.1@,
            cons_case: Box::new(expr_view(*cons_pattern.2)),
        },
    }
}

impl View for Expression {
    type V = Expr;

    open spec fn view(&self) -> Expr {
        expr_view(*self)
    }
}

impl Clone for Expression {
    /// A clone is equal to the original, including every variable name.
    fn clone(&self) -> (r: Self)
        ensures
            r == *self,
        decreases self,
    {
        match self {
            Expression::Integer(n) => Expression::Integer(*n),
            Expression::Bool(b) => Expression::Bool(*b),
            Expression::Variable(x) => Expression::Variable(x.clone()),
            Expression::Plus { expression1, expression2 } => Expression::Plus {
                expression1: Box::new((**expression1).clone()),
                expression2: Box::new((**expression2).clone()),
            },
            Expression::Minus { expression1, expression2 } => Expression::Minus {
                expression1: Box::new((**expression1).clone()),
                expression2: Box::new((**expression2).clone()),
            },
            Expression::Times { expression1, expression2 } => Expression::Times {
                expression1: Box::new((**expression1).clone()),
                expression2: Box::new((**expression2).clone()),
            },
            Expression::LessThan { expression1, expression2 } => Expression::LessThan {
                expression1: Box::new((**expression1).clone()),
                expression2: Box::new((**expression2).clone()),
            },
            Expression::If { predicate, consequent, alternative } => Expression::If {
                predicate: Box::new((**predicate).clone()),
                consequent: Box::new((**consequent).clone()),
                alternative: Box::new((**alternative).clone()),
            },
            Expression::Let { variable, bound, body } => Expression::Let {
                variable: variable.clone(),
                bound: Box::new((**bound).clone()),
                body: Box::new((**body).clone()),
            },
            Expression::Fun { parameter, body } => Expression::Fun {
                parameter: parameter.clone(),
                body: Box::new((**body).clone()),
            },
            Expression::App { function, argument } => Expression::App {
                function: Box::new((**function).clone()),
                argument: Box::new((**argument).clone()),
            },
            Expression::LetRec { variable, bound_function, body } => Expression::LetRec {
                variable: variable.clone(),
                bound_function: Box::new((**bound_function).clone()),
                body: Box::new((**body).clone()),
            },
            Expression::Nil => Expression::Nil,
            Expression::Cons { car, cdr } => Expression::Cons {
                car: Box::new((**car).clone()),
                cdr: Box::new((**cdr).clone()),
            },
            Expression::Match { scrutinee, nil_case, cons_pattern } => Expression::Match {
                scrutinee: Box::new((**scrutinee).clone()),
                nil_case: Box::new((**nil_case).clone()),
                cons_pattern: (
                    cons_pattern.0.clone(),
                    cons_pattern.1.clone(),
                    Box::new((*cons_pattern.2).clone()),
                ),
            },
        }
    }
}

} // verus!
