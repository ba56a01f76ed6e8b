use picocaml::ast::Expression;
use picocaml::inference::{infer, type_inference};
use picocaml::symbol::SymbolGenerator;
use picocaml::type_environment::TypeEnvironment;
use picocaml::type_scheme::TypeScheme;
use picocaml::types::{BaseType, Type};

#[test]
fn test_infer_integer() {
    let expression = Expression::Integer(10);

    let result = type_inference(
        TypeEnvironment::default(),
        expression,
        &mut SymbolGenerator::new(),
    );

    assert!(result.is_ok());
    let (_, t) = result.unwrap();
    assert_eq!(t, Type::Base(BaseType::Integer));
}

#[test]
fn test_infer_bool() {
    let expression = Expression::Bool(true);

    let result = type_inference(
        TypeEnvironment::default(),
        expression,
        &mut SymbolGenerator::new(),
    );

    assert!(result.is_ok());
    let (_, t) = result.unwrap();
    assert_eq!(t, Type::Base(BaseType::Bool));
}

#[test]
fn test_infer_variable() {
    let env = TypeEnvironment::default().substitute_variable(
        "x".to_string(),
        TypeScheme::new_monomorphic_type_scheme(Type::Base(BaseType::Integer)),
    );

    let expression = Expression::Variable("x".to_string());

    let result = infer(env, expression, &mut SymbolGenerator::new());

    assert!(result.is_ok());
    let (_, t) = result.unwrap();
    assert_eq!(t, Type::Base(BaseType::Integer));
}

#[test]
fn test_infer_undefined_variable() {
    let expression = Expression::Variable("unknown".to_string());

    let result = type_inference(
        TypeEnvironment::default(),
        expression,
        &mut SymbolGenerator::new(),
    );

    assert!(result.is_err());
}

#[test]
fn test_infer_plus() {
    let expression = Expression::Plus {
        expression1: Expression::Integer(3).into(),
        expression2: Expression::Integer(5).into(),
    };

    let result = type_inference(
        TypeEnvironment::default(),
        expression,
        &mut SymbolGenerator::new(),
    );

    assert!(result.is_ok());
    let (_, t) = result.unwrap();
    assert_eq!(t, Type::Base(BaseType::Integer));
}

#[test]
fn test_infer_minus() {
    let expression = Expression::Minus {
        expression1: Expression::Integer(10).into(),
        expression2: Expression::Integer(5).into(),
    };

    let result = type_inference(
        TypeEnvironment::default(),
        expression,
        &mut SymbolGenerator::new(),
    );

    assert!(result.is_ok());
    let (_, t) = result.unwrap();
    assert_eq!(t, Type::Base(BaseType::Integer));
}

#[test]
fn test_infer_times() {
    let expression = Expression::Times {
        expression1: Expression::Integer(3).into(),
        expression2: Expression::Integer(5).into(),
    };

    let result = type_inference(
        TypeEnvironment::default(),
        expression,
        &mut SymbolGenerator::new(),
    );

    assert!(result.is_ok());
    let (_, t) = result.unwrap();
    assert_eq!(t, Type::Base(BaseType::Integer));
}

#[test]
fn test_infer_less_than() {
    let expression = Expression::LessThan {
        expression1: Expression::Integer(3).into(),
        expression2: Expression::Integer(5).into(),
    };

    let result = type_inference(
        TypeEnvironment::default(),
        expression,
        &mut SymbolGenerator::new(),
    );

    assert!(result.is_ok());
    let (_, t) = result.unwrap();
    assert_eq!(t, Type::Base(BaseType::Bool));
}

#[test]
fn test_infer_invalid_operation() {
    let expression = Expression::Plus {
        expression1: Expression::Integer(3).into(),
        expression2: Expression::Bool(true).into(),
    };

    let result = type_inference(
        TypeEnvironment::default(),
        expression,
        &mut SymbolGenerator::new(),
    );

    assert!(result.is_err());
}

#[test]
fn test_infer_if() {
    let expression = Expression::If {
        predicate: Expression::Bool(true).into(),
        consequent: Expression::Integer(1).into(),
        alternative: Expression::Integer(2).into(),
    };

    let result = type_inference(
        TypeEnvironment::default(),
        expression,
        &mut SymbolGenerator::new(),
    );

    assert!(result.is_ok());
    let (_, t) = result.unwrap();
    assert_eq!(t, Type::Base(BaseType::Integer));
}

#[test]
fn test_infer_if_with_invalid_predicate() {
    let expression = Expression::If {
        predicate: Expression::Integer(1).into(),
        consequent: Expression::Integer(1).into(),
        alternative: Expression::Integer(2).into(),
    };

    let result = type_inference(
        TypeEnvironment::default(),
        expression,
        &mut SymbolGenerator::new(),
    );

    assert!(result.is_err());
}

#[test]
fn test_infer_if_with_mismatched_branches() {
    let expression = Expression::If {
        predicate: Expression::Bool(true).into(),
        consequent: Expression::Integer(1).into(),
        alternative: Expression::Bool(false).into(),
    };

    let result = type_inference(
        TypeEnvironment::default(),
        expression,
        &mut SymbolGenerator::new(),
    );

    assert!(result.is_err());
}

#[test]
fn test_infer_let() {
    let expression = Expression::Let {
        variable: "x".to_string(),
        bound: Expression::Integer(5).into(),
        body: Expression::Plus {
            expression1: Expression::Variable("x".to_string()).into(),
            expression2: Expression::Integer(3).into(),
        }
        .into(),
    };

    let result = type_inference(
        TypeEnvironment::default(),
        expression,
        &mut SymbolGenerator::new(),
    );

    assert!(result.is_ok());
    let (_, t) = result.unwrap();
    assert_eq!(t, Type::Base(BaseType::Integer));
}

#[test]
fn test_infer_let_with_complex_bound() {
    let expression = Expression::Let {
        variable: "result".to_string(),
        bound: Expression::If {
            predicate: Expression::Bool(true).into(),
            consequent: Expression::Integer(10).into(),
            alternative: Expression::Integer(20).into(),
        }
        .into(),
        body: Expression::Variable("result".to_string()).into(),
    };

    let result = type_inference(
        TypeEnvironment::default(),
        expression,
        &mut SymbolGenerator::new(),
    );

    assert!(result.is_ok());
    let (_, t) = result.unwrap();
    assert_eq!(t, Type::Base(BaseType::Integer));
}

#[test]
fn test_infer_fun() {
    let expression = Expression::Fun {
        parameter: "x".to_string(),
        body: Expression::Plus {
            expression1: Expression::Variable("x".to_string()).into(),
            expression2: Expression::Integer(1).into(),
        }
        .into(),
    };

    let result = type_inference(
        TypeEnvironment::default(),
        expression,
        &mut SymbolGenerator::new(),
    );

    assert!(result.is_ok());
    let (_, t) = result.unwrap();

    match t {
        Type::Function { domain, range } => {
            assert_eq!(*domain, Type::Base(BaseType::Integer));
            assert_eq!(*range, Type::Base(BaseType::Integer));
        }
        _ => panic!("Expected function type, got: {:#?}", t),
    }
}

#[test]
fn test_infer_identity_fun() {
    let expression = Expression::Fun {
        parameter: "x".to_string(),
        body: Expression::Variable("x".to_string()).into(),
    };

    let result = type_inference(
        TypeEnvironment::default(),
        expression,
        &mut SymbolGenerator::new(),
    );

    assert!(result.is_ok());
    let (_, t) = result.unwrap();

    match t {
        Type::Function { domain, range } => {
            assert_eq!(*domain, *range);
        }
        _ => panic!("Expected function type, got: {:#?}", t),
    }
}

#[test]
fn test_infer_app() {
    let function_expr = Expression::Fun {
        parameter: "x".to_string(),
        body: Expression::Plus {
            expression1: Expression::Variable("x".to_string()).into(),
            expression2: Expression::Integer(1).into(),
        }
        .into(),
    };

    let arg_expr = Expression::Integer(5);

    let expression = Expression::App {
        function: function_expr.into(),
        argument: arg_expr.into(),
    };

    let result = type_inference(
        TypeEnvironment::default(),
        expression,
        &mut SymbolGenerator::new(),
    );

    assert!(result.is_ok());
    let (_, t) = result.unwrap();
    assert_eq!(t, Type::Base(BaseType::Integer));
}

#[test]
fn test_infer_app_with_invalid_argument() {
    let function_expr = Expression::Fun {
        parameter: "x".to_string(),
        body: Expression::Plus {
            expression1: Expression::Variable("x".to_string()).into(),
            expression2: Expression::Integer(1).into(),
        }
        .into(),
    };

    let arg_expr = Expression::Bool(true);

    let expression = Expression::App {
        function: function_expr.into(),
        argument: arg_expr.into(),
    };

    let result = type_inference(
        TypeEnvironment::default(),
        expression,
        &mut SymbolGenerator::new(),
    );

    assert!(result.is_err());
}

#[test]
fn test_infer_let_rec() {
    let expression = Expression::LetRec {
        variable: "fact".to_string(),
        bound_function: Expression::Fun {
            parameter: "n".to_string(),
            body: Expression::If {
                predicate: Expression::LessThan {
                    expression1: Expression::Variable("n".to_string()).into(),
                    expression2: Expression::Integer(1).into(),
                }
                .into(),
                consequent: Expression::Integer(1).into(),
                alternative: Expression::Times {
                    expression1: Expression::Variable("n".to_string()).into(),
                    expression2: Expression::App {
                        function: Expression::Variable("fact".to_string()).into(),
                        argument: Expression::Minus {
                            expression1: Expression::Variable("n".to_string()).into(),
                            expression2: Expression::Integer(1).into(),
                        }
                        .into(),
                    }
                    .into(),
                }
                .into(),
            }
            .into(),
        }
        .into(),
        body: Expression::App {
            function: Expression::Variable("fact".to_string()).into(),
            argument: Expression::Integer(5).into(),
        }
        .into(),
    };

    let result = type_inference(
        TypeEnvironment::default(),
        expression,
        &mut SymbolGenerator::new(),
    );

    assert!(result.is_ok());
    let (_, t) = result.unwrap();
    assert_eq!(t, Type::Base(BaseType::Integer));
}

#[test]
fn test_infer_nil() {
    let expression = Expression::Nil;

    let result = type_inference(
        TypeEnvironment::default(),
        expression,
        &mut SymbolGenerator::new(),
    );

    assert!(result.is_ok());
    let (_, t) = result.unwrap();
    assert!(matches!(t, Type::List(_)));
}

#[test]
fn test_infer_cons() {
    let expression = Expression::Cons {
        car: Expression::Integer(1).into(),
        cdr: Expression::Nil.into(),
    };

    let result = type_inference(
        TypeEnvironment::default(),
        expression,
        &mut SymbolGenerator::new(),
    );

    assert!(result.is_ok());
    let (_, t) = result.unwrap();
    assert!(
        matches!(t, Type::List(element_type) if matches!(*element_type, Type::Base(BaseType::Integer)))
    );
}

#[test]
fn test_infer_cons_with_invalid_elements() {
    let expression = Expression::Cons {
        car: Expression::Integer(1).into(),
        cdr: Expression::Cons {
            car: Expression::Bool(true).into(),
            cdr: Expression::Nil.into(),
        }
        .into(),
    };

    let result = type_inference(
        TypeEnvironment::default(),
        expression,
        &mut SymbolGenerator::new(),
    );

    assert!(result.is_err());
}

#[test]
fn test_infer_match_nil_case() {
    let expression = Expression::Match {
        scrutinee: Expression::Nil.into(),
        nil_case: Expression::Integer(0).into(),
        cons_pattern: (
            "head".to_string(),
            "tail".to_string(),
            Expression::Plus {
                expression1: Expression::Variable("head".to_string()).into(),
                expression2: Expression::Integer(1).into(),
            }
            .into(),
        ),
    };

    let result = type_inference(
        TypeEnvironment::default(),
        expression,
        &mut SymbolGenerator::new(),
    );

    assert!(result.is_ok());
    let (_, t) = result.unwrap();
    assert_eq!(t, Type::Base(BaseType::Integer));
}

#[test]
fn test_infer_match_cons_case() {
    let expression = Expression::Match {
        scrutinee: Expression::Cons {
            car: Expression::Integer(1).into(),
            cdr: Expression::Nil.into(),
        }
        .into(),
        nil_case: Expression::Integer(0).into(),
        cons_pattern: (
            "head".to_string(),
            "tail".to_string(),
            Expression::Plus {
                expression1: Expression::Variable("head".to_string()).into(),
                expression2: Expression::Integer(1).into(),
            }
            .into(),
        ),
    };

    let result = type_inference(
        TypeEnvironment::default(),
        expression,
        &mut SymbolGenerator::new(),
    );

    assert!(result.is_ok());
    let (_, t) = result.unwrap();
    assert_eq!(t, Type::Base(BaseType::Integer));
}

#[test]
fn test_infer_match_with_invalid_scrutinee() {
    let expression = Expression::Match {
        scrutinee: Expression::Integer(5).into(),
        nil_case: Expression::Integer(0).into(),
        cons_pattern: (
            "head".to_string(),
            "tail".to_string(),
            Expression::Plus {
                expression1: Expression::Variable("head".to_string()).into(),
                expression2: Expression::Integer(1).into(),
            }
            .into(),
        ),
    };

    let result = type_inference(
        TypeEnvironment::default(),
        expression,
        &mut SymbolGenerator::new(),
    );

    assert!(result.is_err());
}

#[test]
fn test_infer_match_with_mismatched_cases() {
    let expression = Expression::Match {
        scrutinee: Expression::Nil.into(),
        nil_case: Expression::Integer(0).into(),
        cons_pattern: (
            "head".to_string(),
            "tail".to_string(),
            Expression::Bool(true).into(),
        ),
    };

    let result = type_inference(
        TypeEnvironment::default(),
        expression,
        &mut SymbolGenerator::new(),
    );

    assert!(result.is_err());
}

#[test]
fn test_infer_complex_arithmetic() {
    let expression = Expression::Plus {
        expression1: Expression::Integer(3).into(),
        expression2: Expression::Times {
            expression1: Expression::Integer(5).into(),
            expression2: Expression::Integer(2).into(),
        }
        .into(),
    };

    let result = type_inference(
        TypeEnvironment::default(),
        expression,
        &mut SymbolGenerator::new(),
    );

    assert!(result.is_ok());
    let (_, t) = result.unwrap();
    assert_eq!(t, Type::Base(BaseType::Integer));
}

#[test]
fn test_infer_complex_predicate() {
    let expression = Expression::LessThan {
        expression1: Expression::Plus {
            expression1: Expression::Integer(3).into(),
            expression2: Expression::Integer(5).into(),
        }
        .into(),
        expression2: Expression::Integer(10).into(),
    };

    let result = type_inference(
        TypeEnvironment::default(),
        expression,
        &mut SymbolGenerator::new(),
    );

    assert!(result.is_ok());
    let (_, t) = result.unwrap();
    assert_eq!(t, Type::Base(BaseType::Bool));
}

#[test]
fn test_infer_complex_function() {
    let expression = Expression::Let {
        variable: "add".to_string(),
        bound: Expression::Fun {
            parameter: "x".to_string(),
            body: Expression::Fun {
                parameter: "y".to_string(),
                body: Expression::Plus {
                    expression1: Expression::Variable("x".to_string()).into(),
                    expression2: Expression::Variable("y".to_string()).into(),
                }
                .into(),
            }
            .into(),
        }
        .into(),
        body: Expression::App {
            function: Expression::App {
                function: Expression::Variable("add".to_string()).into(),
                argument: Expression::Integer(3).into(),
            }
            .into(),
            argument: Expression::Integer(4).into(),
        }
        .into(),
    };

    let result = type_inference(
        TypeEnvironment::default(),
        expression,
        &mut SymbolGenerator::new(),
    );

    assert!(result.is_ok());
    let (_, t) = result.unwrap();
    assert_eq!(t, Type::Base(BaseType::Integer));
}

#[test]
fn test_infer_list_sum() {
    let sum_function = Expression::Fun {
        parameter: "l".to_string(),
        body: Expression::Match {
            scrutinee: Expression::Variable("l".to_string()).into(),
            nil_case: Expression::Integer(0).into(),
            cons_pattern: (
                "h".to_string(),
                "t".to_string(),
                Expression::Plus {
                    expression1: Expression::Variable("h".to_string()).into(),
                    expression2: Expression::App {
                        function: Expression::Variable("sum".to_string()).into(),
                        argument: Expression::Variable("t".to_string()).into(),
                    }
                    .into(),
                }
                .into(),
            ),
        }
        .into(),
    };

    let list_expr = Expression::Cons {
        car: Expression::Integer(1).into(),
        cdr: Expression::Cons {
            car: Expression::Integer(2).into(),
            cdr: Expression::Cons {
                car: Expression::Integer(3).into(),
                cdr: Expression::Nil.into(),
            }
            .into(),
        }
        .into(),
    };

    let expression = Expression::LetRec {
        variable: "sum".to_string(),
        bound_function: sum_function.into(),
        body: Expression::App {
            function: Expression::Variable("sum".to_string()).into(),
            argument: list_expr.into(),
        }
        .into(),
    };

    let result = type_inference(
        TypeEnvironment::default(),
        expression,
        &mut SymbolGenerator::new(),
    );

    assert!(result.is_ok());
    let (_, t) = result.unwrap();
    assert_eq!(t, Type::Base(BaseType::Integer));
}

#[test]
fn test_infer_polymorphic_identity() {
    let id_function = Expression::Fun {
        parameter: "x".to_string(),
        body: Expression::Variable("x".to_string()).into(),
    };

    let expression = Expression::Let {
        variable: "id".to_string(),
        bound: id_function.into(),
        body: Expression::If {
            predicate: Expression::App {
                function: Expression::Variable("id".to_string()).into(),
                argument: Expression::Bool(true).into(),
            }
            .into(),
            consequent: Expression::App {
                function: Expression::Variable("id".to_string()).into(),
                argument: Expression::Integer(42).into(),
            }
            .into(),
            alternative: Expression::Integer(0).into(),
        }
        .into(),
    };

    let result = type_inference(
        TypeEnvironment::default(),
        expression,
        &mut SymbolGenerator::new(),
    );

    assert!(result.is_ok());
    let (_, t) = result.unwrap();
    assert_eq!(t, Type::Base(BaseType::Integer));
}

#[test]
fn test_infer_polymorphic_map() {
    let map_function = Expression::Fun {
        parameter: "f".to_string(),
        body: Expression::Fun {
            parameter: "xs".to_string(),
            body: Expression::Match {
                scrutinee: Expression::Variable("xs".to_string()).into(),
                nil_case: Expression::Nil.into(),
                cons_pattern: (
                    "h".to_string(),
                    "t".to_string(),
                    Expression::Cons {
                        car: Expression::App {
                            function: Expression::Variable("f".to_string()).into(),
                            argument: Expression::Variable("h".to_string()).into(),
                        }
                        .into(),
                        cdr: Expression::App {
                            function: Expression::App {
                                function: Expression::Variable("map".to_string()).into(),
                                argument: Expression::Variable("f".to_string()).into(),
                            }
                            .into(),
                            argument: Expression::Variable("t".to_string()).into(),
                        }
                        .into(),
                    }
                    .into(),
                ),
            }
            .into(),
        }
        .into(),
    };

    let int_list = Expression::Cons {
        car: Expression::Integer(1).into(),
        cdr: Expression::Cons {
            car: Expression::Integer(2).into(),
            cdr: Expression::Cons {
                car: Expression::Integer(3).into(),
                cdr: Expression::Nil.into(),
            }
            .into(),
        }
        .into(),
    };

    let add_one = Expression::Fun {
        parameter: "x".to_string(),
        body: Expression::Plus {
            expression1: Expression::Variable("x".to_string()).into(),
            expression2: Expression::Integer(1).into(),
        }
        .into(),
    };

    let positive = Expression::Fun {
        parameter: "x".to_string(),
        body: Expression::LessThan {
            expression1: Expression::Integer(0).into(),
            expression2: Expression::Variable("x".to_string()).into(),
        }
        .into(),
    };

    let expression = Expression::LetRec {
        variable: "map".to_string(),
        bound_function: map_function.into(),
        body: Expression::Let {
            variable: "int_list".to_string(),
            bound: int_list.into(),
            body: Expression::Let {
                variable: "incremented".to_string(),
                bound: Expression::App {
                    function: Expression::App {
                        function: Expression::Variable("map".to_string()).into(),
                        argument: add_one.into(),
                    }
                    .into(),
                    argument: Expression::Variable("int_list".to_string()).into(),
                }
                .into(),
                body: Expression::App {
                    function: Expression::App {
                        function: Expression::Variable("map".to_string()).into(),
                        argument: positive.into(),
                    }
                    .into(),
                    argument: Expression::Variable("incremented".to_string()).into(),
                }
                .into(),
            }
            .into(),
        }
        .into(),
    };

    let result = type_inference(
        TypeEnvironment::default(),
        expression,
        &mut SymbolGenerator::new(),
    );

    assert!(result.is_ok());
    let (_, t) = result.unwrap();
    assert!(
        matches!(t, Type::List(element_type) if matches!(*element_type, Type::Base(BaseType::Bool)))
    );
}

#[test]
fn test_polymorphic_compose() {
    let compose_function = Expression::Fun {
        parameter: "f".to_string(),
        body: Expression::Fun {
            parameter: "g".to_string(),
            body: Expression::Fun {
                parameter: "x".to_string(),
                body: Expression::App {
                    function: Expression::Variable("f".to_string()).into(),
                    argument: Expression::App {
                        function: Expression::Variable("g".to_string()).into(),
                        argument: Expression::Variable("x".to_string()).into(),
                    }
                    .into(),
                }
                .into(),
            }
            .into(),
        }
        .into(),
    };

    let multiply_by_10 = Expression::Fun {
        parameter: "n".to_string(),
        body: Expression::Times {
            expression1: Expression::Variable("n".to_string()).into(),
            expression2: Expression::Integer(10).into(),
        }
        .into(),
    };

    let double = Expression::Fun {
        parameter: "n".to_string(),
        body: Expression::Times {
            expression1: Expression::Variable("n".to_string()).into(),
            expression2: Expression::Integer(2).into(),
        }
        .into(),
    };

    let bool_to_int = Expression::Fun {
        parameter: "b".to_string(),
        body: Expression::If {
            predicate: Expression::Variable("b".to_string()).into(),
            consequent: Expression::Integer(1).into(),
            alternative: Expression::Integer(0).into(),
        }
        .into(),
    };

    let expression = Expression::Let {
        variable: "compose".to_string(),
        bound: compose_function.into(),
        body: Expression::Let {
            variable: "multiply_by_20".to_string(),
            bound: Expression::App {
                function: Expression::App {
                    function: Expression::Variable("compose".to_string()).into(),
                    argument: multiply_by_10.into(),
                }
                .into(),
                argument: double.into(),
            }
            .into(),
            body: Expression::Let {
                variable: "int_of_bool".to_string(),
                bound: bool_to_int.into(),
                body: Expression::Let {
                    variable: "bool_to_int_multiplied".to_string(),
                    bound: Expression::App {
                        function: Expression::App {
                            function: Expression::Variable("compose".to_string()).into(),
                            argument: Expression::Variable("multiply_by_20".to_string()).into(),
                        }
                        .into(),
                        argument: Expression::Variable("int_of_bool".to_string()).into(),
                    }
                    .into(),
                    body: Expression::App {
                        function: Expression::Variable("bool_to_int_multiplied".to_string())
                            .into(),
                        argument: Expression::Bool(true).into(),
                    }
                    .into(),
                }
                .into(),
            }
            .into(),
        }
        .into(),
    };

    let result = type_inference(
        TypeEnvironment::default(),
        expression,
        &mut SymbolGenerator::new(),
    );

    assert!(result.is_ok());
    let (_, t) = result.unwrap();
    assert_eq!(t, Type::Base(BaseType::Integer));
}
