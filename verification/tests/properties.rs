use picocaml::ast::Expression;
use picocaml::environment::Environment;
use picocaml::errors::TypeError;
use picocaml::evaluation::{eval, EvalError};
use picocaml::inference::type_inference;
use picocaml::parser::{parse, parse_isize};
use picocaml::symbol::SymbolGenerator;
use picocaml::tokenizer::tokenize;
use picocaml::type_environment::TypeEnvironment;
use picocaml::type_scheme::TypeScheme;
use picocaml::types::{free_type_variables, BaseType, Type};
use picocaml::unification::{add_equation, get_equation, unify, Equations};
use picocaml::value::Value;

const FUEL: u64 = 10_000;

fn run(source: &str) -> (Type, Value) {
    let expression = parse(tokenize(source.to_string())).expect("parse");
    let (_, inferred) = type_inference(
        TypeEnvironment::default(),
        expression.clone(),
        &mut SymbolGenerator::new(),
    )
    .expect("infer");
    let (_, value) = eval(Environment::default(), expression, FUEL).expect("eval");
    (inferred, value)
}

#[test]
fn pipeline_arithmetic() {
    // 3 + 5 * 2 has type Integer and value 13.
    let (t, v) = run("3 + 5 * 2");
    assert_eq!(t, Type::Base(BaseType::Integer));
    assert!(matches!(v, Value::Integer(13)));
}

#[test]
fn pipeline_let() {
    // let x = 10 in x + 5 has type Integer and value 15.
    let (t, v) = run("let x = 10 in x + 5");
    assert_eq!(t, Type::Base(BaseType::Integer));
    assert!(matches!(v, Value::Integer(15)));
}

#[test]
fn pipeline_if() {
    // if 5 < 10 then 20 else 30 has type Integer and value 20.
    let (t, v) = run("if 5 < 10 then 20 else 30");
    assert_eq!(t, Type::Base(BaseType::Integer));
    assert!(matches!(v, Value::Integer(20)));
}

#[test]
fn pipeline_factorial() {
    let (t, v) = run("let rec fact = fun n -> if n < 2 then 1 else n * fact (n - 1) in fact 5");
    assert_eq!(t, Type::Base(BaseType::Integer));
    assert!(matches!(v, Value::Integer(120)));
}

#[test]
fn pipeline_match() {
    let (t, v) = run("match 1 :: 2 :: [] with [] -> 0 | hd :: tl -> hd");
    assert_eq!(t, Type::Base(BaseType::Integer));
    assert!(matches!(v, Value::Integer(1)));
}

#[test]
fn pipeline_ill_typed_sum_is_rejected() {
    // 3 + true does not unify.
    let expression = parse(tokenize("3 + true".to_string())).expect("parse");
    let result = type_inference(
        TypeEnvironment::default(),
        expression,
        &mut SymbolGenerator::new(),
    );
    assert_eq!(result.unwrap_err(), TypeError::UnificationImpossible);
}

#[test]
fn shadowing_inner_binding_wins() {
    // let x = 1 in let x = 2 in x evaluates to 2.
    let (t, v) = run("let x = 1 in let x = 2 in x");
    assert_eq!(t, Type::Base(BaseType::Integer));
    assert!(matches!(v, Value::Integer(2)));
}

#[test]
fn lexical_scoping_captures_at_definition() {
    // let x = 1 in let f = fun y -> x + y in let x = 99 in f 2 evaluates to 3.
    let (t, v) = run("let x = 1 in let f = fun y -> x + y in let x = 99 in f 2");
    assert_eq!(t, Type::Base(BaseType::Integer));
    assert!(matches!(v, Value::Integer(3)));
}

#[test]
fn well_typed_programs_evaluate() {
    // A few well-typed closed programs; each infers and evaluates.
    for source in [
        "0",
        "true",
        "1 :: []",
        "(fun x -> x) 7",
        "let id = fun x -> x in if id true then id 42 else 0",
        "let rec sum = fun l -> match l with [] -> 0 | h :: t -> h + sum t in sum (1 :: 2 :: 3 :: [])",
    ] {
        let expression = parse(tokenize(source.to_string())).expect("parse");
        assert!(type_inference(
            TypeEnvironment::default(),
            expression.clone(),
            &mut SymbolGenerator::new(),
        )
        .is_ok());
        assert!(eval(Environment::default(), expression, FUEL).is_ok());
    }
}

#[test]
fn evaluation_is_deterministic() {
    let expression = parse(tokenize("let x = 2 in x * x + 1".to_string())).expect("parse");
    let first = eval(Environment::default(), expression.clone(), FUEL).expect("eval");
    let second = eval(Environment::default(), expression, FUEL).expect("eval");
    assert!(matches!(first.1, Value::Integer(5)));
    assert!(matches!(second.1, Value::Integer(5)));
}

#[test]
fn evaluation_preserves_environment() {
    let env = Environment::default().bind("x".to_string(), Value::Integer(7));
    let expression = Expression::Plus {
        expression1: Expression::Variable("x".to_string()).into(),
        expression2: Expression::Integer(1).into(),
    };
    let (post, value) = eval(env, expression, FUEL).expect("eval");
    assert!(matches!(value, Value::Integer(8)));
    assert!(matches!(post.get(&"x".to_string()), Some(Value::Integer(7))));
}

#[test]
fn polymorphic_let_evaluates() {
    let (t, v) = run("let id = fun x -> x in if id true then id 42 else 0");
    assert_eq!(t, Type::Base(BaseType::Integer));
    assert!(matches!(v, Value::Integer(42)));
}

#[test]
fn identity_domain_equals_range() {
    // fun x -> x has a principal type whose domain equals its range.
    let expression = parse(tokenize("fun x -> x".to_string())).expect("parse");
    let (_, t) = type_inference(
        TypeEnvironment::default(),
        expression,
        &mut SymbolGenerator::new(),
    )
    .expect("infer");
    match t {
        Type::Function { domain, range } => assert_eq!(*domain, *range),
        _ => panic!("expected a function type"),
    }
}

#[test]
fn generalization_respects_environment() {
    // fun f -> let g = f in g 1: g must not be generalized over f's
    // parameter type, so f is forced to a function on integers.
    let expression = parse(tokenize("fun f -> let g = f in g 1".to_string())).expect("parse");
    let (_, t) = type_inference(
        TypeEnvironment::default(),
        expression,
        &mut SymbolGenerator::new(),
    )
    .expect("infer");
    match t {
        Type::Function { domain, range } => match (*domain, *range) {
            (Type::Function { domain: inner_domain, range: inner_range }, result) => {
                assert_eq!(*inner_domain, Type::Base(BaseType::Integer));
                assert_eq!(*inner_range, result);
            }
            other => panic!("expected a function argument, got: {:#?}", other),
        },
        _ => panic!("expected a function type"),
    }
}

#[test]
fn occurs_check_rejects_self_application() {
    // let rec loop = fun x -> loop in loop: the occurs check rejects the
    // infinite type with a circular reference.
    let expression = parse(tokenize("let rec loop = fun x -> loop in loop".to_string()))
        .expect("parse");
    let result = type_inference(
        TypeEnvironment::default(),
        expression,
        &mut SymbolGenerator::new(),
    );
    assert_eq!(result.unwrap_err(), TypeError::CircularReference);
}

#[test]
fn undefined_variable_in_inference() {
    let expression = Expression::Variable("ghost_name".to_string());
    let result = type_inference(
        TypeEnvironment::default(),
        expression,
        &mut SymbolGenerator::new(),
    );
    assert_eq!(result.unwrap_err(), TypeError::UndefinedVariable);
}

#[test]
fn invalid_application_target() {
    // 1 2: the function position is an integer.
    let expression = parse(tokenize("1 2".to_string())).expect("parse");
    let result = type_inference(
        TypeEnvironment::default(),
        expression,
        &mut SymbolGenerator::new(),
    );
    assert_eq!(result.unwrap_err(), TypeError::InvalidType);
}

#[test]
fn cyclic_normalization_is_reported() {
    let env = TypeEnvironment::default();
    let variable = Type::Variable { name: "a".to_string() };
    let visited = vec![variable.clone()];
    let result = env.normalize_type(visited, variable);
    assert_eq!(result.unwrap_err(), TypeError::CyclicTypeReference);
}

#[test]
fn undefined_variable_in_evaluation() {
    let expression = Expression::Variable("nowhere".to_string());
    let result = eval(Environment::default(), expression, FUEL);
    assert!(matches!(result.unwrap_err(), EvalError::UndefinedVariable(_)));
}

#[test]
fn adding_booleans_fails_at_run_time() {
    let expression = Expression::Plus {
        expression1: Expression::Bool(true).into(),
        expression2: Expression::Integer(1).into(),
    };
    let result = eval(Environment::default(), expression, FUEL);
    assert!(matches!(result.unwrap_err(), EvalError::InvalidExpression));
}

#[test]
fn arithmetic_overflow_fails_at_run_time() {
    let expression = Expression::Plus {
        expression1: Expression::Integer(isize::MAX).into(),
        expression2: Expression::Integer(1).into(),
    };
    let result = eval(Environment::default(), expression, FUEL);
    assert!(matches!(result.unwrap_err(), EvalError::InvalidExpression));
}

#[test]
fn divergence_runs_out_of_fuel() {
    // let rec loop = fun x -> loop x in loop 0 never returns; the fuel
    // meter stops it.
    let expression = parse(tokenize("let rec loop = fun x -> loop x in loop 0".to_string()))
        .expect("parse");
    let result = eval(Environment::default(), expression, 100);
    assert!(matches!(result.unwrap_err(), EvalError::OutOfFuel));
}

#[test]
fn environment_bind_and_get() {
    let env = Environment::default().bind("k".to_string(), Value::Bool(true));
    assert!(matches!(env.get(&"k".to_string()), Some(Value::Bool(true))));
    assert!(env.get(&"missing".to_string()).is_none());
}

#[test]
fn add_equation_is_idempotent() {
    let store = Equations::new();
    let store = add_equation(
        store,
        Type::Variable { name: "a".to_string() },
        Type::Base(BaseType::Integer),
    );
    let store = add_equation(
        store,
        Type::Variable { name: "a".to_string() },
        Type::Base(BaseType::Integer),
    );
    assert_eq!(store.pairs.len(), 1);
}

#[test]
fn unify_resolves_a_variable() {
    let store = add_equation(
        Equations::new(),
        Type::Variable { name: "a".to_string() },
        Type::Base(BaseType::Integer),
    );
    let solved = unify(store, Equations::new()).expect("unify");
    let representative = get_equation(&solved, Type::Variable { name: "a".to_string() });
    assert_eq!(representative, Some(Type::Base(BaseType::Integer)));
}

#[test]
fn unify_rejects_incompatible_bases() {
    let store = add_equation(
        Equations::new(),
        Type::Base(BaseType::Integer),
        Type::Base(BaseType::Bool),
    );
    let result = unify(store, Equations::new());
    assert_eq!(result.unwrap_err(), TypeError::UnificationImpossible);
}

#[test]
fn unify_occurs_check_catches_lists() {
    // a = List a builds an infinite type.
    let store = add_equation(
        Equations::new(),
        Type::Variable { name: "a".to_string() },
        Type::List(Box::new(Type::Variable { name: "a".to_string() })),
    );
    let result = unify(store, Equations::new());
    assert_eq!(result.unwrap_err(), TypeError::CircularReference);
}

#[test]
fn unify_decomposes_functions() {
    // a -> Bool = Int -> b forces a = Int and b = Bool.
    let left = Type::Function {
        domain: Box::new(Type::Variable { name: "a".to_string() }),
        range: Box::new(Type::Base(BaseType::Bool)),
    };
    let right = Type::Function {
        domain: Box::new(Type::Base(BaseType::Integer)),
        range: Box::new(Type::Variable { name: "b".to_string() }),
    };
    let store = add_equation(Equations::new(), left, right);
    let solved = unify(store, Equations::new()).expect("unify");
    assert_eq!(
        get_equation(&solved, Type::Variable { name: "a".to_string() }),
        Some(Type::Base(BaseType::Integer)),
    );
    assert_eq!(
        get_equation(&solved, Type::Variable { name: "b".to_string() }),
        Some(Type::Base(BaseType::Bool)),
    );
}

#[test]
fn normalization_resolves_under_lists() {
    let env = TypeEnvironment::default().add_equation(
        Type::Variable { name: "a".to_string() },
        Type::Base(BaseType::Integer),
    );
    let env = env.unify_equations().expect("unify");
    let normalized = env
        .normalize_type(
            Vec::new(),
            Type::List(Box::new(Type::Variable { name: "a".to_string() })),
        )
        .expect("normalize");
    assert_eq!(normalized, Type::List(Box::new(Type::Base(BaseType::Integer))));
}

#[test]
fn instantiation_refreshes_quantified_variables() {
    let scheme = TypeScheme::new_polymorphic_type_scheme(
        vec!["a".to_string()],
        Type::Variable { name: "a".to_string() },
    );
    let instantiated = scheme.instantiate(&mut SymbolGenerator::new());
    assert_ne!(instantiated, Type::Variable { name: "a".to_string() });
    assert!(matches!(instantiated, Type::Variable { .. }));
}

#[test]
fn monomorphic_schemes_instantiate_to_themselves() {
    let scheme = TypeScheme::new_monomorphic_type_scheme(Type::Base(BaseType::Bool));
    let instantiated = scheme.instantiate(&mut SymbolGenerator::new());
    assert_eq!(instantiated, Type::Base(BaseType::Bool));
}

#[test]
fn generated_symbols_differ() {
    let mut generator = SymbolGenerator::new();
    let first = generator.fresh();
    let second = generator.fresh();
    assert_eq!(first, "'t0".to_string());
    assert_eq!(second, "'t1".to_string());
    assert_ne!(first, second);
}

#[test]
fn free_variables_in_order_of_occurrence() {
    let t = Type::Function {
        domain: Box::new(Type::Variable { name: "a".to_string() }),
        range: Box::new(Type::List(Box::new(Type::Variable { name: "b".to_string() }))),
    };
    let vars = free_type_variables(t);
    assert_eq!(vars, vec!["a".to_string(), "b".to_string()]);
}

#[test]
fn tokenizer_splits_operators_and_literals() {
    let tokens: Vec<String> = tokenize("3 + 5 * 2".to_string()).into_iter().collect();
    assert_eq!(tokens, vec!["3", "+", "5", "*", "2"]);
}

#[test]
fn tokenizer_reads_signed_numbers_and_arrows() {
    let tokens: Vec<String> = tokenize("fun x -> x + -5".to_string()).into_iter().collect();
    assert_eq!(tokens, vec!["fun", "x", "->", "x", "+", "-5"]);
}

#[test]
fn tokenizer_reads_list_syntax() {
    let tokens: Vec<String> = tokenize("1 :: []".to_string()).into_iter().collect();
    assert_eq!(tokens, vec!["1", "::", "[]"]);
}

#[test]
fn parse_isize_reads_bounds() {
    assert_eq!(parse_isize(&isize::MAX.to_string()), Some(isize::MAX));
    assert_eq!(parse_isize(&isize::MIN.to_string()), Some(isize::MIN));
    assert_eq!(parse_isize(&"+7".to_string()), Some(7));
    assert_eq!(parse_isize(&"99999999999999999999999999".to_string()), None);
    assert_eq!(parse_isize(&"12a".to_string()), None);
    assert_eq!(parse_isize(&"-".to_string()), None);
    assert_eq!(parse_isize(&"".to_string()), None);
}

#[test]
fn parser_respects_precedence_and_parentheses() {
    // (3 + 5) * 2 evaluates to 16 while 3 + 5 * 2 evaluates to 13.
    let (_, grouped) = run("(3 + 5) * 2");
    assert!(matches!(grouped, Value::Integer(16)));
    let (_, plain) = run("3 + 5 * 2");
    assert!(matches!(plain, Value::Integer(13)));
}

#[test]
fn parser_cons_is_right_associative() {
    let (_, v) = run("match 1 :: 2 :: [] with [] -> 0 | h :: t -> h");
    assert!(matches!(v, Value::Integer(1)));
}

#[test]
fn parser_rejects_leftover_tokens() {
    assert!(parse(tokenize("1 )".to_string())).is_err());
    assert!(parse(tokenize("let = 3 in x".to_string())).is_err());
    assert!(parse(tokenize("".to_string())).is_err());
}

#[test]
fn empty_list_evaluates_to_nil() {
    let (_, v) = run("[]");
    assert!(matches!(v, Value::Nil));
}

#[test]
fn closures_print_free_variables_from_capture() {
    // A closure value carries its captured environment.
    let (_, v) = run("let x = 5 in fun y -> x + y");
    match v {
        Value::Closure { environment, parameter, .. } => {
            assert_eq!(parameter, "y".to_string());
            assert!(matches!(environment.get(&"x".to_string()), Some(Value::Integer(5))));
        }
        _ => panic!("expected a closure"),
    }
}

#[test]
fn parser_builds_the_precedence_tree() {
    // 3 + 5 * 2 parses as 3 + (5 * 2).
    let tree = parse(tokenize("3 + 5 * 2".to_string())).expect("parse");
    match tree {
        Expression::Plus { expression1, expression2 } => {
            assert!(matches!(*expression1, Expression::Integer(3)));
            match *expression2 {
                Expression::Times { expression1, expression2 } => {
                    assert!(matches!(*expression1, Expression::Integer(5)));
                    assert!(matches!(*expression2, Expression::Integer(2)));
                }
                other => panic!("expected a product, got: {:#?}", other),
            }
        }
        other => panic!("expected a sum, got: {:#?}", other),
    }
}

#[test]
fn parser_application_is_left_associative() {
    // f x y parses as (f x) y.
    let tree = parse(tokenize("f x y".to_string())).expect("parse");
    match tree {
        Expression::App { function, argument } => {
            assert!(matches!(*argument, Expression::Variable(ref v) if v == "y"));
            match *function {
                Expression::App { function, argument } => {
                    assert!(matches!(*function, Expression::Variable(ref v) if v == "f"));
                    assert!(matches!(*argument, Expression::Variable(ref v) if v == "x"));
                }
                other => panic!("expected an application, got: {:#?}", other),
            }
        }
        other => panic!("expected an application, got: {:#?}", other),
    }
}
