use picocaml::ast::Expression;
use picocaml::environment::Environment;
use picocaml::evaluation::eval;
use picocaml::value::Value;

const FUEL: u64 = 10_000;

#[test]
fn evaluation_test_simple_arithmetic() {
    // 3 + 5 * 2
    let expr = Expression::Plus {
        expression1: Expression::Integer(3).into(),
        expression2: Expression::Times {
            expression1: Expression::Integer(5).into(),
            expression2: Expression::Integer(2).into(),
        }
        .into(),
    };

    let result = eval(Environment::default(), expr, FUEL);

    assert!(result.is_ok());
    let (_, value) = result.unwrap();
    assert!(matches!(value, Value::Integer(13)));
}

#[test]
fn evaluation_test_let_binding() {
    // let x = 10 in x + 5
    let expr = Expression::Let {
        variable: "x".to_string(),
        bound: Expression::Integer(10).into(),
        body: Expression::Plus {
            expression1: Expression::Variable("x".to_string()).into(),
            expression2: Expression::Integer(5).into(),
        }
        .into(),
    };

    let result = eval(Environment::default(), expr, FUEL);

    assert!(result.is_ok());
    let (_, value) = result.unwrap();
    assert!(matches!(value, Value::Integer(15)));
}

#[test]
fn evaluation_test_if_expression() {
    // if 5 < 10 then 20 else 30
    let expr = Expression::If {
        predicate: Expression::LessThan {
            expression1: Expression::Integer(5).into(),
            expression2: Expression::Integer(10).into(),
        }
        .into(),
        consequent: Expression::Integer(20).into(),
        alternative: Expression::Integer(30).into(),
    };

    let result = eval(Environment::default(), expr, FUEL);

    assert!(result.is_ok());
    let (_, value) = result.unwrap();
    assert!(matches!(value, Value::Integer(20)));
}

#[test]
fn evaluation_test_function_application() {
    // (fun x -> x + 1) 5
    let expr = Expression::App {
        function: Expression::Fun {
            parameter: "x".to_string(),
            body: Expression::Plus {
                expression1: Expression::Variable("x".to_string()).into(),
                expression2: Expression::Integer(1).into(),
            }
            .into(),
        }
        .into(),
        argument: Expression::Integer(5).into(),
    };

    let result = eval(Environment::default(), expr, FUEL);

    assert!(result.is_ok());
    let (_, value) = result.unwrap();
    assert!(matches!(value, Value::Integer(6)));
}

#[test]
fn evaluation_test_recursive_function() {
    // let rec fact = fun n -> if n < 2 then 1 else n * fact (n - 1) in fact 5
    let expr = Expression::LetRec {
        variable: "fact".to_string(),
        bound_function: Expression::Fun {
            parameter: "n".to_string(),
            body: Expression::If {
                predicate: Expression::LessThan {
                    expression1: Expression::Variable("n".to_string()).into(),
                    expression2: Expression::Integer(2).into(),
                }
                .into(),
                consequent: Expression::Integer(1).into(),
                alternative: Expression::Times {
                    expression1: Expression::Variable("n".to_string()).into(),
                    expression2: Expression::App {
                        function: Expression::Variable("fact".to_string()).into(),
                        argument: Expression::Minus {
                            expression1: Expression::Variable("n".to_string()).into(),
                            expression2: Expression::Integer(1).into(),
                        }
                        .into(),
                    }
                    .into(),
                }
                .into(),
            }
            .into(),
        }
        .into(),
        body: Expression::App {
            function: Expression::Variable("fact".to_string()).into(),
            argument: Expression::Integer(5).into(),
        }
        .into(),
    };

    let result = eval(Environment::default(), expr, FUEL);

    assert!(result.is_ok());
    let (_, value) = result.unwrap();
    assert!(matches!(value, Value::Integer(120)));
}

#[test]
fn evaluation_test_list_operations() {
    // match 1::2::[] with [] -> 0 | hd::tl -> hd
    let expr = Expression::Match {
        scrutinee: Expression::Cons {
            car: Expression::Integer(1).into(),
            cdr: Expression::Cons {
                car: Expression::Integer(2).into(),
                cdr: Expression::Nil.into(),
            }
            .into(),
        }
        .into(),
        nil_case: Expression::Integer(0).into(),
        cons_pattern: (
            "hd".to_string(),
            "tl".to_string(),
            Expression::Variable("hd".to_string()).into(),
        ),
    };

    let result = eval(Environment::default(), expr, FUEL);

    assert!(result.is_ok());
    let (_, value) = result.unwrap();
    assert!(matches!(value, Value::Integer(1)));
}

#[test]
fn eval_test_simple_arithmetic() {
    // 3 + 5 * 2
    let expr = Expression::Plus {
        expression1: Box::new(Expression::Integer(3)),
        expression2: Box::new(Expression::Times {
            expression1: Box::new(Expression::Integer(5)),
            expression2: Box::new(Expression::Integer(2)),
        }),
    };

    let result = eval(Environment::default(), expr, FUEL);

    assert!(result.is_ok());
    let value = result.unwrap().1;
    assert!(matches!(value, Value::Integer(13)));
}

#[test]
fn eval_test_let_binding() {
    // let x = 10 in x + 5
    let expr = Expression::Let {
        variable: "x".to_string(),
        bound: Box::new(Expression::Integer(10)),
        body: Box::new(Expression::Plus {
            expression1: Box::new(Expression::Variable("x".to_string())),
            expression2: Box::new(Expression::Integer(5)),
        }),
    };

    let result = eval(Environment::default(), expr, FUEL);

    assert!(result.is_ok());
    let value = result.unwrap().1;
    assert!(matches!(value, Value::Integer(15)));
}

#[test]
fn eval_test_if_expression() {
    // if 5 < 10 then 20 else 30
    let expr = Expression::If {
        predicate: Box::new(Expression::LessThan {
            expression1: Box::new(Expression::Integer(5)),
            expression2: Box::new(Expression::Integer(10)),
        }),
        consequent: Box::new(Expression::Integer(20)),
        alternative: Box::new(Expression::Integer(30)),
    };

    let result = eval(Environment::default(), expr, FUEL);

    assert!(result.is_ok());
    let value = result.unwrap().1;
    assert!(matches!(value, Value::Integer(20)));
}

#[test]
fn eval_test_function_application() {
    // (fun x -> x + 1) 5
    let expr = Expression::App {
        function: Box::new(Expression::Fun {
            parameter: "x".to_string(),
            body: Box::new(Expression::Plus {
                expression1: Box::new(Expression::Variable("x".to_string())),
                expression2: Box::new(Expression::Integer(1)),
            }),
        }),
        argument: Box::new(Expression::Integer(5)),
    };

    let result = eval(Environment::default(), expr, FUEL);

    assert!(result.is_ok());
    let value = result.unwrap().1;
    assert!(matches!(value, Value::Integer(6)));
}

#[test]
fn eval_test_recursive_function() {
    // let rec fact = fun n -> if n < 2 then 1 else n * fact (n - 1) in fact 5
    let expr = Expression::LetRec {
        variable: "fact".to_string(),
        bound_function: Box::new(Expression::Fun {
            parameter: "n".to_string(),
            body: Box::new(Expression::If {
                predicate: Box::new(Expression::LessThan {
                    expression1: Box::new(Expression::Variable("n".to_string())),
                    expression2: Box::new(Expression::Integer(2)),
                }),
                consequent: Box::new(Expression::Integer(1)),
                alternative: Box::new(Expression::Times {
                    expression1: Box::new(Expression::Variable("n".to_string())),
                    expression2: Box::new(Expression::App {
                        function: Box::new(Expression::Variable("fact".to_string())),
                        argument: Box::new(Expression::Minus {
                            expression1: Box::new(Expression::Variable("n".to_string())),
                            expression2: Box::new(Expression::Integer(1)),
                        }),
                    }),
                }),
            }),
        }),
        body: Box::new(Expression::App {
            function: Box::new(Expression::Variable("fact".to_string())),
            argument: Box::new(Expression::Integer(5)),
        }),
    };

    let result = eval(Environment::default(), expr, FUEL);

    assert!(result.is_ok());
    let value = result.unwrap().1;
    assert!(matches!(value, Value::Integer(120)));
}

#[test]
fn eval_test_list_operations() {
    // match 1::2::[] with [] -> 0 | hd::tl -> hd
    let expr = Expression::Match {
        scrutinee: Box::new(Expression::Cons {
            car: Box::new(Expression::Integer(1)),
            cdr: Box::new(Expression::Cons {
                car: Box::new(Expression::Integer(2)),
                cdr: Box::new(Expression::Nil),
            }),
        }),
        nil_case: Box::new(Expression::Integer(0)),
        cons_pattern: (
            "hd".to_string(),
            "tl".to_string(),
            Box::new(Expression::Variable("hd".to_string())),
        ),
    };

    let result = eval(Environment::default(), expr, FUEL);

    assert!(result.is_ok());
    let value = result.unwrap().1;
    assert!(matches!(value, Value::Integer(1)));
}
