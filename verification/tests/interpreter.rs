use lisp_rs::eval::{eval, Env, EvalError, TypeFault};
use lisp_rs::lexer::{tokenize, Token};
use lisp_rs::parser::{parse, Object, ParseFault};

const FUEL: u64 = 1000;

fn run(env: &mut Env, src: &str) -> Result<Object, EvalError> {
    let tokens = tokenize(src).expect("tokenize never fails");
    let ast = parse(&tokens).expect("well-formed program");
    eval(&ast, env, 0, FUEL)
}

#[test]
fn test_tokenize() {
    let tokens = tokenize("(+ 1 2)").unwrap();
    assert_eq!(
        tokens,
        vec![
            Token::LParen,
            Token::Symbol("+".to_string()),
            Token::Integer(1),
            Token::Integer(2),
            Token::RParen,
        ]
    );
}

#[test]
fn test_parse() {
    let input = vec![
        Token::LParen,
        Token::Symbol("+".to_string()),
        Token::Integer(1),
        Token::Integer(2),
        Token::RParen,
    ];

    let expected = Ok(Object::List(vec![
        Object::Symbol("+".to_string()),
        Object::Integer(1),
        Object::Integer(2),
    ]));

    assert_eq!(expected, parse(&input));
}

#[test]
fn test_eval() {
    let mut env = Env::new();
    let input = Object::List(vec![
        Object::Symbol("+".to_string()),
        Object::Integer(1),
        Object::Integer(2),
    ]);
    let expected = Ok(Object::Integer(3));

    assert_eq!(expected, eval(&input, &mut env, 0, FUEL));
}

#[test]
fn test_define_and_lookup() {
    let mut env = Env::new();
    assert_eq!(run(&mut env, "(define x 10)"), Ok(Object::Void));
    let val = eval(&Object::Symbol("x".to_string()), &mut env, 0, FUEL);
    assert_eq!(val, Ok(Object::Integer(10)));
}

#[test]
fn test_unbound_symbol() {
    let mut env = Env::new();
    let val = eval(&Object::Symbol("nope".to_string()), &mut env, 0, FUEL);
    assert_eq!(val, Err(EvalError::UnboundSymbol("nope".to_string())));
}

#[test]
fn test_if_taken_branch_only() {
    let mut env = Env::new();
    let r = run(&mut env, "(if (< 1 2) (define a 1) (define b 2))");
    assert_eq!(r, Ok(Object::Void));
    // the taken branch bound `a` ...
    assert_eq!(
        eval(&Object::Symbol("a".to_string()), &mut env, 0, FUEL),
        Ok(Object::Integer(1))
    );
    // ... and the untaken branch's `define` never ran
    assert_eq!(
        eval(&Object::Symbol("b".to_string()), &mut env, 0, FUEL),
        Err(EvalError::UnboundSymbol("b".to_string()))
    );
}

#[test]
fn test_if_condition_must_be_boolean() {
    let mut env = Env::new();
    assert_eq!(
        run(&mut env, "(if 1 2 3)"),
        Err(EvalError::TypeError(TypeFault::Condition))
    );
    assert_eq!(run(&mut env, "(if 1 2)"), Err(EvalError::ArityError));
}

#[test]
fn test_lambda_square() {
    let mut env = Env::new();
    run(&mut env, "(define square (lambda (n) (* n n)))").unwrap();
    assert_eq!(run(&mut env, "(square 5)"), Ok(Object::Integer(25)));
}

#[test]
fn test_recursive_factorial() {
    let mut env = Env::new();
    run(
        &mut env,
        "(define fact (lambda (n) (if (< n 1) 1 (* n (fact (- n 1))))))",
    )
    .unwrap();
    assert_eq!(run(&mut env, "(fact 5)"), Ok(Object::Integer(120)));
    assert_eq!(run(&mut env, "(fact 0)"), Ok(Object::Integer(1)));
}

#[test]
fn test_division_truncates() {
    let mut env = Env::new();
    assert_eq!(run(&mut env, "(/ 7 2)"), Ok(Object::Integer(3)));
    assert_eq!(run(&mut env, "(/ -7 2)"), Ok(Object::Integer(-3)));
    assert_eq!(run(&mut env, "(/ 7 -2)"), Ok(Object::Integer(-3)));
    assert_eq!(run(&mut env, "(/ -7 -2)"), Ok(Object::Integer(3)));
}

#[test]
fn test_division_by_zero() {
    let mut env = Env::new();
    assert_eq!(run(&mut env, "(/ 7 0)"), Err(EvalError::DivisionByZero));
}

#[test]
fn test_operator_arity() {
    let mut env = Env::new();
    assert_eq!(run(&mut env, "(+ 1)"), Err(EvalError::ArityError));
    assert_eq!(run(&mut env, "(+ 1 2 3)"), Err(EvalError::ArityError));
}

#[test]
fn test_user_function_arity() {
    let mut env = Env::new();
    run(&mut env, "(define square (lambda (n) (* n n)))").unwrap();
    assert_eq!(run(&mut env, "(square)"), Err(EvalError::ArityError));
    assert_eq!(run(&mut env, "(square 1 2)"), Err(EvalError::ArityError));
}

#[test]
fn test_arithmetic_exact_values() {
    let mut env = Env::new();
    assert_eq!(run(&mut env, "(- 10 4)"), Ok(Object::Integer(6)));
    assert_eq!(run(&mut env, "(* 3 4)"), Ok(Object::Integer(12)));
    assert_eq!(run(&mut env, "(- 4 10)"), Ok(Object::Integer(-6)));
    assert_eq!(run(&mut env, "(+ (* 2 3) 4)"), Ok(Object::Integer(10)));
}

#[test]
fn test_comparisons() {
    let mut env = Env::new();
    assert_eq!(run(&mut env, "(< 1 2)"), Ok(Object::Bool(true)));
    assert_eq!(run(&mut env, "(> 1 2)"), Ok(Object::Bool(false)));
    assert_eq!(run(&mut env, "(= 2 2)"), Ok(Object::Bool(true)));
    assert_eq!(run(&mut env, "(!= 2 2)"), Ok(Object::Bool(false)));
}

#[test]
fn test_operand_type_errors() {
    let mut env = Env::new();
    assert_eq!(
        run(&mut env, "(+ (< 1 2) 1)"),
        Err(EvalError::TypeError(TypeFault::LeftOperand))
    );
    assert_eq!(
        run(&mut env, "(+ 1 (< 1 2))"),
        Err(EvalError::TypeError(TypeFault::RightOperand))
    );
}

#[test]
fn test_not_callable() {
    let mut env = Env::new();
    run(&mut env, "(define x 10)").unwrap();
    assert_eq!(
        run(&mut env, "(x 1)"),
        Err(EvalError::NotCallable("x".to_string()))
    );
}

#[test]
fn test_overflow_is_an_error() {
    let mut env = Env::new();
    assert_eq!(
        run(&mut env, "(+ 9223372036854775807 1)"),
        Err(EvalError::Overflow)
    );
    assert_eq!(
        run(&mut env, "(- -9223372036854775808 1)"),
        Err(EvalError::Overflow)
    );
    assert_eq!(
        run(&mut env, "(* 4294967296 4294967296)"),
        Err(EvalError::Overflow)
    );
    assert_eq!(
        run(&mut env, "(/ -9223372036854775808 -1)"),
        Err(EvalError::Overflow)
    );
}

#[test]
fn test_define_form_errors() {
    let mut env = Env::new();
    assert_eq!(run(&mut env, "(define x)"), Err(EvalError::ArityError));
    assert_eq!(
        run(&mut env, "(define 5 5)"),
        Err(EvalError::TypeError(TypeFault::DefineName))
    );
}

#[test]
fn test_lambda_form_errors() {
    let mut env = Env::new();
    assert_eq!(
        run(&mut env, "(lambda 5 (n))"),
        Err(EvalError::TypeError(TypeFault::LambdaParams))
    );
    assert_eq!(
        run(&mut env, "(lambda (5) (n))"),
        Err(EvalError::TypeError(TypeFault::LambdaParams))
    );
    assert_eq!(
        run(&mut env, "(lambda (n) 5)"),
        Err(EvalError::TypeError(TypeFault::LambdaBody))
    );
    assert_eq!(run(&mut env, "(lambda (n))"), Err(EvalError::ArityError));
}

#[test]
fn test_empty_list_is_an_error() {
    let mut env = Env::new();
    assert_eq!(run(&mut env, "()"), Err(EvalError::EmptyList));
}

#[test]
fn test_parse_errors() {
    let empty: Vec<Token> = Vec::new();
    assert_eq!(
        parse(&empty).unwrap_err().kind,
        ParseFault::ExpectedLParen
    );
    let not_open = tokenize("1").unwrap();
    assert_eq!(
        parse(&not_open).unwrap_err().kind,
        ParseFault::ExpectedLParen
    );
    let unterminated = tokenize("(+ 1").unwrap();
    assert_eq!(
        parse(&unterminated).unwrap_err().kind,
        ParseFault::Insufficient
    );
}

#[test]
fn test_parse_nested() {
    let tokens = tokenize("(+ (* 2 3) 4)").unwrap();
    let expected = Object::List(vec![
        Object::Symbol("+".to_string()),
        Object::List(vec![
            Object::Symbol("*".to_string()),
            Object::Integer(2),
            Object::Integer(3),
        ]),
        Object::Integer(4),
    ]);
    assert_eq!(parse(&tokens), Ok(expected));
}

#[test]
fn test_tokenize_integer_edges() {
    assert_eq!(tokenize("-5").unwrap(), vec![Token::Integer(-5)]);
    assert_eq!(tokenize("+5").unwrap(), vec![Token::Integer(5)]);
    assert_eq!(
        tokenize("-9223372036854775808").unwrap(),
        vec![Token::Integer(i64::MIN)]
    );
    assert_eq!(
        tokenize("9223372036854775807").unwrap(),
        vec![Token::Integer(i64::MAX)]
    );
    // one past the range is a symbol, not a silently wrapped integer
    assert_eq!(
        tokenize("9223372036854775808").unwrap(),
        vec![Token::Symbol("9223372036854775808".to_string())]
    );
    assert_eq!(tokenize("-").unwrap(), vec![Token::Symbol("-".to_string())]);
    assert_eq!(
        tokenize("12a3").unwrap(),
        vec![Token::Symbol("12a3".to_string())]
    );
}

#[test]
fn test_tokenize_blanks_and_padding() {
    assert_eq!(tokenize("").unwrap(), Vec::<Token>::new());
    assert_eq!(tokenize("  \t\n ").unwrap(), Vec::<Token>::new());
    // parentheses need no surrounding whitespace
    assert_eq!(
        tokenize("(a)").unwrap(),
        vec![
            Token::LParen,
            Token::Symbol("a".to_string()),
            Token::RParen,
        ]
    );
}

#[test]
fn test_element_wise_list_drops_void() {
    let mut env = Env::new();
    assert_eq!(
        run(&mut env, "((< 1 2) 3)"),
        Ok(Object::List(vec![Object::Bool(true), Object::Integer(3)]))
    );
    // a define inside an implicit list runs for effect and its Void is dropped
    assert_eq!(
        run(&mut env, "((define x 7) x)"),
        Ok(Object::List(vec![Object::Integer(7)]))
    );
}

#[test]
fn test_multi_expression_body_wraps_result() {
    let mut env = Env::new();
    run(
        &mut env,
        "(define f (lambda (n) ((define m (+ n 1)) (* m 2))))",
    )
    .unwrap();
    // the body's surviving value comes back wrapped in a one-element list
    assert_eq!(
        run(&mut env, "(f 3)"),
        Ok(Object::List(vec![Object::Integer(8)]))
    );
}

#[test]
fn test_body_local_define_stays_local() {
    let mut env = Env::new();
    run(
        &mut env,
        "(define f (lambda (n) ((define m (+ n 1)) (* m 2))))",
    )
    .unwrap();
    run(&mut env, "(f 3)").unwrap();
    // `m` was bound in the call's own scope, not in the root
    assert_eq!(
        eval(&Object::Symbol("m".to_string()), &mut env, 0, FUEL),
        Err(EvalError::UnboundSymbol("m".to_string()))
    );
}

#[test]
fn test_define_shadows_previous_binding() {
    let mut env = Env::new();
    run(&mut env, "(define x 1)").unwrap();
    run(&mut env, "(define x 2)").unwrap();
    assert_eq!(
        eval(&Object::Symbol("x".to_string()), &mut env, 0, FUEL),
        Ok(Object::Integer(2))
    );
}

#[test]
fn test_committed_defines_survive_a_later_error() {
    let mut env = Env::new();
    run(&mut env, "(define x 1)").unwrap();
    assert_eq!(run(&mut env, "(/ 1 0)"), Err(EvalError::DivisionByZero));
    assert_eq!(
        eval(&Object::Symbol("x".to_string()), &mut env, 0, FUEL),
        Ok(Object::Integer(1))
    );
}

#[test]
fn test_depth_exceeded_on_unbounded_recursion() {
    let mut env = Env::new();
    run(&mut env, "(define spin (lambda (n) (spin n)))").unwrap();
    assert_eq!(run(&mut env, "(spin 1)"), Err(EvalError::DepthExceeded));
}

#[test]
fn test_env_scopes_do_not_write_through() {
    let mut env = Env::new();
    env.set(0, "x", Object::Integer(1));
    let child = env.extend(0);
    // the child sees the parent's binding through the chain
    assert_eq!(env.get(child, "x"), Some(Object::Integer(1)));
    // a set in the child is invisible to the parent
    env.set(child, "y", Object::Integer(2));
    assert_eq!(env.get(child, "y"), Some(Object::Integer(2)));
    assert_eq!(env.get(0, "y"), None);
}

#[test]
fn test_to_text_rendering() {
    assert_eq!(Object::Integer(-42).to_text(), "-42");
    assert_eq!(Object::Integer(0).to_text(), "0");
    assert_eq!(Object::Void.to_text(), "Void");
    assert_eq!(Object::Bool(true).to_text(), "true");
    assert_eq!(Object::Symbol("abc".to_string()).to_text(), "abc");
    assert_eq!(
        Object::List(vec![Object::Integer(1), Object::Integer(2)]).to_text(),
        "(1 2)"
    );
    let mut env = Env::new();
    run(&mut env, "(define square (lambda (n) (* n n)))").unwrap();
    let lam = eval(&Object::Symbol("square".to_string()), &mut env, 0, FUEL).unwrap();
    assert_eq!(lam.to_text(), "Lambda(n ) * n n");
}

#[test]
fn test_no_round_trip_for_lambda_and_void() {
    let mut env = Env::new();
    run(&mut env, "(define square (lambda (n) (* n n)))").unwrap();
    let lam = eval(&Object::Symbol("square".to_string()), &mut env, 0, FUEL).unwrap();
    let text = lam.to_text();
    let back = parse(&tokenize(&text).unwrap());
    assert_eq!(back.unwrap_err().kind, ParseFault::ExpectedLParen);

    let void_text = Object::Void.to_text();
    let back_void = parse(&tokenize(&void_text).unwrap());
    assert_eq!(back_void.unwrap_err().kind, ParseFault::ExpectedLParen);
}

#[test]
fn test_error_messages() {
    let mut env = Env::new();
    let err = run(&mut env, "(nope 1)").unwrap_err();
    assert_eq!(err.message(), "Unbound symbol: nope");
    let perr = parse(&tokenize("(+ 1").unwrap()).unwrap_err();
    assert_eq!(perr.message(), "Parse error: insufficient tokens");
}

#[test]
fn test_lambda_form_yields_lambda_value() {
    let mut env = Env::new();
    let lam = run(&mut env, "(lambda (a b) (+ a b))").unwrap();
    assert_eq!(
        lam,
        Object::Lambda(
            vec!["a".to_string(), "b".to_string()],
            vec![
                Object::Symbol("+".to_string()),
                Object::Symbol("a".to_string()),
                Object::Symbol("b".to_string()),
            ],
        )
    );
    // a bare lambda value re-evaluated yields Void
    assert_eq!(eval(&lam, &mut env, 0, FUEL), Ok(Object::Void));
}
