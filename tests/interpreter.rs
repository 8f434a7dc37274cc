use racket_interpreter::ast::{Ast, AstError};
use racket_interpreter::body::into_any;
use racket_interpreter::data_types::DataType;
use racket_interpreter::error::{DeclaredFunctionError, InterpreterError, Kind, Native, NativeFnError};
use racket_interpreter::expr::{Expr, Tree};
use racket_interpreter::interpreter::Interpreter;
use racket_interpreter::lexer::{Lexer, Token};
use racket_interpreter::value::{Any, AnyEval, Composed, EvalTree};
use racket_interpreter::vars::VarsStorage;

fn tokens(src: &str) -> Vec<Token> {
    let chars: Vec<char> = src.chars().collect();
    Lexer::new(chars).parse().unwrap().into_iter().map(|t| t.token).collect()
}

fn program(src: &str) -> Interpreter {
    Interpreter::new(Ast::try_from(&tokens(src)).unwrap())
}

fn run(src: &str) -> Result<Vec<Any>, InterpreterError> {
    program(src).run()
}

fn last(src: &str) -> Result<Any, InterpreterError> {
    run(src).map(|mut v| v.pop().unwrap())
}

fn integer(i: i32) -> Any {
    Any::Primitive(DataType::Integer(i))
}

fn boolean(b: bool) -> Any {
    Any::Primitive(DataType::Boolean(b))
}

fn list_of(v: Any) -> Vec<Any> {
    match v {
        Any::Composed(c) => match *c {
            Composed::List(l) => l.0,
            other => panic!("not a list: {:?}", other),
        },
        other => panic!("not a list: {:?}", other),
    }
}

fn native_error(e: NativeFnError) -> InterpreterError {
    InterpreterError::NativeError(e)
}

#[test]
fn arity_of_declared_function_is_enforced() {
    let r = last("(define (f x y) (+ x y)) (f 1)");
    assert_eq!(
        r,
        Err(InterpreterError::DeclaredFnError(DeclaredFunctionError::ArityMismatch { expected: 2, got: 1 }))
    );
    let r = last("(define (f x) x) (f 1 2 3)");
    assert_eq!(
        r,
        Err(InterpreterError::DeclaredFnError(DeclaredFunctionError::ArityMismatch { expected: 1, got: 3 }))
    );
}

#[test]
fn arity_mismatch_never_runs_the_body() {
    // the body would fail with an unknown identifier if it ran
    let r = last("(define (f x) undefined-name) (f)");
    assert_eq!(
        r,
        Err(InterpreterError::DeclaredFnError(DeclaredFunctionError::ArityMismatch { expected: 1, got: 0 }))
    );
}

#[test]
fn parameter_shadows_global_only_inside_the_call() {
    let values = run("(define x 1) (define (f x) (+ x 1)) (f 5) x").unwrap();
    assert_eq!(values[2], integer(6));
    assert_eq!(values[3], integer(1));
}

#[test]
fn quoted_list_is_data() {
    let v = last("'(1 2 3)").unwrap();
    match &v {
        Any::Expression(Expr::RawQuoted(_)) => {},
        other => panic!("expected quoted data, got {:?}", other),
    }
    assert_eq!(last("(length '(1 2 3))").unwrap(), integer(3));
}

#[test]
fn quoted_call_is_not_evaluated() {
    let v = last("'(+ 1 2)").unwrap();
    assert_ne!(v, integer(3));
    match v {
        Any::Expression(Expr::RawQuoted(inner)) => match *inner {
            Expr::Parenthesized(t) => {
                assert_eq!(t.node, Some(Box::new(Expr::Ident("+".to_string()))));
                assert_eq!(t.children.len(), 2);
            },
            other => panic!("expected a tree, got {:?}", other),
        },
        other => panic!("expected quoted data, got {:?}", other),
    }
}

#[test]
fn arithmetic_folds_left() {
    assert_eq!(last("(+ 1 2 3)").unwrap(), integer(6));
    assert_eq!(last("(* 2 3 4)").unwrap(), integer(24));
    assert_eq!(last("(- 10 3 2)").unwrap(), integer(5));
    assert_eq!(last("(/ 20 2 5)").unwrap(), integer(2));
    assert_eq!(last("(+ -4 4)").unwrap(), integer(0));
}

#[test]
fn arithmetic_rejects_strings() {
    assert_eq!(
        last("(+ 1 \"a\")"),
        Err(native_error(NativeFnError::UnexpectedType {
            function: Native::Add,
            argument_position: 2,
            got: Kind::String,
            expected: Kind::Number,
        }))
    );
}

#[test]
fn arithmetic_errors() {
    assert_eq!(last("(/ 1 0)"), Err(native_error(NativeFnError::DivisionByZero)));
    assert_eq!(last("(/ 7 2)"), Err(native_error(NativeFnError::NotYetImplemented)));
    assert_eq!(last("(+ 2147483647 1)"), Err(native_error(NativeFnError::Overflow)));
    assert_eq!(last("(+ 1/2 1)"), Err(native_error(NativeFnError::NotYetImplemented)));
    assert_eq!(last("(+ 1)"), Err(native_error(NativeFnError::ArityMismatch { expected: 2, got: 1 })));
}

#[test]
fn comparisons() {
    assert_eq!(last("(< 1 2 3)").unwrap(), boolean(true));
    assert_eq!(last("(< 1 3 2)").unwrap(), boolean(false));
    assert_eq!(last("(= 2 2)").unwrap(), boolean(true));
    assert_eq!(last("(>= 3 3 1)").unwrap(), boolean(true));
    assert_eq!(last("(<= 3 1)").unwrap(), boolean(false));
    assert_eq!(last("(> 2 1 \"x\")").is_err(), true);
    assert_eq!(last("(> 1 2 \"x\")").unwrap(), boolean(false));
}

#[test]
fn cons_makes_a_pair() {
    match last("(cons 1 2)").unwrap() {
        Any::Composed(c) => match *c {
            Composed::Pair(p) => {
                assert_eq!(p.left, integer(1));
                assert_eq!(p.right, integer(2));
            },
            other => panic!("expected a pair, got {:?}", other),
        },
        other => panic!("expected a pair, got {:?}", other),
    }
}

#[test]
fn list_builds_in_order() {
    assert_eq!(list_of(last("(list 1 2 3)").unwrap()), vec![integer(1), integer(2), integer(3)]);
}

#[test]
fn map_applies_in_order() {
    let v = last("(define (f x) (* x 10)) (map f '(1 2 3))").unwrap();
    assert_eq!(list_of(v), vec![integer(10), integer(20), integer(30)]);
    let v = last("(map (lambda (x) (+ x 1)) (list 1 2 3))").unwrap();
    assert_eq!(list_of(v), vec![integer(2), integer(3), integer(4)]);
}

#[test]
fn map_leaves_the_source_list_alone() {
    let values = run("(define l (list 1 2 3)) (define (f x) (* x x)) (map f l) l").unwrap();
    assert_eq!(list_of(values[3].make_static()), vec![integer(1), integer(2), integer(3)]);
    assert_eq!(list_of(values[2].make_static()), vec![integer(1), integer(4), integer(9)]);
}

#[test]
fn length_and_list_ref() {
    assert_eq!(last("(length '(1 2 3))").unwrap(), integer(3));
    assert_eq!(last("(length '())").unwrap(), integer(0));
    assert_eq!(last("(list-ref '(1 2 3) 1)").unwrap(), integer(2));
    assert_eq!(last("(list-ref '(1 2 3) 5)"), Err(InterpreterError::OutOfBounds { length: 3, got: 5 }));
    assert_eq!(
        last("(list-ref '(1 2 3) -1)"),
        Err(native_error(NativeFnError::UnexpectedType {
            function: Native::ListRef,
            argument_position: 2,
            got: Kind::Integer,
            expected: Kind::NonNegativeInteger,
        }))
    );
}

#[test]
fn other_list_operations() {
    assert_eq!(list_of(last("(reverse (list 1 2 3))").unwrap()), vec![integer(3), integer(2), integer(1)]);
    assert_eq!(list_of(last("(append (list 1) (list 2 3))").unwrap()), vec![integer(1), integer(2), integer(3)]);
    assert_eq!(list_of(last("(list-tail (list 1 2 3) 1)").unwrap()), vec![integer(2), integer(3)]);
    assert_eq!(last("(list-tail (list 1) 2)"), Err(InterpreterError::OutOfBounds { length: 1, got: 2 }));
    assert_eq!(
        last("(length 5)"),
        Err(native_error(NativeFnError::UnexpectedType {
            function: Native::Length,
            argument_position: 1,
            got: Kind::Integer,
            expected: Kind::List,
        }))
    );
}

#[test]
fn filter_and_folds() {
    let v = last("(filter (lambda (x) (> x 1)) (list 1 2 3))").unwrap();
    assert_eq!(list_of(v), vec![integer(2), integer(3)]);
    assert_eq!(last("(foldl + 0 (list 1 2 3))").unwrap(), integer(6));
    assert_eq!(last("(foldr - 0 (list 1 2 3))").unwrap(), integer(-6));
    assert_eq!(
        last("(filter (lambda (x) x) (list 1))"),
        Err(native_error(NativeFnError::InvalidType { got: Kind::Integer }))
    );
}

#[test]
fn define_binds_and_overwrites() {
    let values = run("(define x 5) x (define x 7) x").unwrap();
    assert_eq!(values[0], Any::Void);
    assert_eq!(values[1], integer(5));
    assert_eq!(values[3], integer(7));
}

#[test]
fn define_function_form() {
    assert_eq!(last("(define (square x) (* x x)) (square 4)").unwrap(), integer(16));
    assert_eq!(last("(define sq (lambda (x) (* x x))) (sq 5)").unwrap(), integer(25));
}

#[test]
fn define_errors() {
    assert_eq!(last("(define x)"), Err(native_error(NativeFnError::ArityMismatch { expected: 2, got: 1 })));
    assert_eq!(
        last("(define 5 1)"),
        Err(native_error(NativeFnError::IdentifierExpectedIn { call: Native::Define }))
    );
    assert_eq!(
        last("(define (f 1) 1)"),
        Err(InterpreterError::DeclaredFnError(DeclaredFunctionError::InvalidExpression))
    );
}

#[test]
fn lookup_errors() {
    assert_eq!(last("y"), Err(InterpreterError::UnknownIdentifier("y".to_string())));
    assert_eq!(last("(nope 1)"), Err(InterpreterError::UndefinedFunction("nope".to_string())));
    assert_eq!(last("()"), Err(InterpreterError::MissingTreeNode));
    assert_eq!(last("(exit)"), Err(InterpreterError::Exit));
}

#[test]
fn recursion_is_bounded() {
    assert_eq!(last("(define (f x) (f x)) (f 1)"), Err(InterpreterError::RecursionLimit));
    assert_eq!(
        last("(define (fact n) (if (< n 2) 1 (* n (fact (- n 1))))) (fact 5)").unwrap(),
        integer(120)
    );
}

#[test]
fn logic_forms() {
    assert_eq!(last("(if #t 1 2)").unwrap(), integer(1));
    assert_eq!(last("(if #f 1 2)").unwrap(), integer(2));
    assert_eq!(last("(and)").unwrap(), boolean(true));
    assert_eq!(last("(and 1 2)").unwrap(), integer(2));
    assert_eq!(last("(and 1 #f)").unwrap(), boolean(false));
    assert_eq!(last("(or)").unwrap(), boolean(false));
    assert_eq!(last("(or #f 3)").unwrap(), integer(3));
    assert_eq!(last("(not #f)").unwrap(), boolean(true));
    assert_eq!(last("(xor #f 4)").unwrap(), integer(4));
    assert_eq!(last("(cond [(= 1 2) 1] [else 2])").unwrap(), integer(2));
    assert_eq!(last("(cond [#f 1])").unwrap(), Any::Void);
    assert_eq!(last("(if 1 2)"), Err(native_error(NativeFnError::ArityMismatch { expected: 3, got: 2 })));
}

#[test]
fn string_operations() {
    assert_eq!(
        last("(string-append \"ab\" \"cd\")").unwrap(),
        Any::Primitive(DataType::String("abcd".to_string()))
    );
    assert_eq!(last("(string-length \"hello\")").unwrap(), integer(5));
    assert_eq!(
        last("(string-ref \"hello\" 1)").unwrap(),
        Any::Primitive(DataType::Character("e".to_string()))
    );
    assert_eq!(
        last("(substring \"hello\" 1 3)").unwrap(),
        Any::Primitive(DataType::String("el".to_string()))
    );
    assert_eq!(last("(substring \"hello\" 3 1)"), Err(InterpreterError::InvalidRange { start: 3, end: 1 }));
    assert_eq!(last("(string? \"x\")").unwrap(), boolean(true));
    assert_eq!(last("(string? 1)").unwrap(), boolean(false));
}

#[test]
fn lexer_reads_literals_and_names() {
    let t = tokens("(f #t #\\a 12 -3 1/2 #x1f \"s\\\"q\" name)");
    assert_eq!(t[0], Token::OpenParen);
    assert_eq!(t[1], Token::Ident("f".to_string()));
    assert_eq!(t[2], Token::Primitive(DataType::Boolean(true)));
    assert_eq!(t[3], Token::Primitive(DataType::Character("a".to_string())));
    assert_eq!(t[4], Token::Primitive(DataType::Integer(12)));
    assert_eq!(t[5], Token::Primitive(DataType::Integer(-3)));
    match &t[6] {
        Token::Primitive(DataType::Rational(r)) => assert_eq!((r.left, r.right), (1, 2)),
        other => panic!("expected a rational, got {:?}", other),
    }
    match &t[7] {
        Token::Primitive(DataType::Hex(n)) => assert_eq!(n.inner, "#x1f"),
        other => panic!("expected a hex literal, got {:?}", other),
    }
    assert_eq!(t[8], Token::Primitive(DataType::String("s\"q".to_string())));
    assert_eq!(t[9], Token::Ident("name".to_string()));
    assert_eq!(t[10], Token::CloseParen);
}

#[test]
fn lexer_skips_comments_and_counts_lines() {
    let chars: Vec<char> = "; comment\n(a\n b)".chars().collect();
    let located = Lexer::new(chars).parse().unwrap();
    assert_eq!(located.len(), 4);
    assert_eq!(located[0].line, 2);
    assert_eq!(located[2].line, 3);
}

#[test]
fn unterminated_string_is_an_error() {
    let chars: Vec<char> = "\"abc".chars().collect();
    assert!(Lexer::new(chars).parse().is_err());
}

#[test]
fn reader_errors() {
    assert!(Ast::try_from(&tokens("(+ 1 2")).is_err());
    assert_eq!(Ast::try_from(&tokens("")).unwrap().inner.len(), 0);
    assert_eq!(Ast::try_from(&tokens("(a [b] {c}) 'd")).unwrap().inner.len(), 2);
}

#[test]
fn word_with_digits_that_is_no_number_is_a_name() {
    assert_eq!(Token::parse_function(&"x1".chars().collect()), Token::Ident("x1".to_string()));
    assert_eq!(Token::multiple(&"x1".chars().collect()), Token::Ident("x1".to_string()));
    assert_eq!(DataType::parse_num(&"99999999999".chars().collect()), None);
    assert_eq!(DataType::parse_num(&"-2147483648".chars().collect()), Some(-2147483648));
}

#[test]
fn literals_self_evaluate_in_the_round_trip() {
    let e = Expr::Primitive(DataType::Integer(4));
    let v = Any::from_expr(e.make_static());
    assert_eq!(v, integer(4));
    assert_eq!(v.into_expr(), Some(e));
    let e = Expr::Ident("x".to_string());
    let v = Any::from_expr(e.make_static());
    assert_eq!(v, Any::Expression(Expr::Ident("x".to_string())));
    assert_eq!(v.into_expr(), Some(e));
    let t = AnyEval::from_expr(&Expr::RawQuoted(Box::new(Expr::Ident("q".to_string()))));
    assert_eq!(t.to_expr(), Some(Expr::RawQuoted(Box::new(Expr::Ident("q".to_string())))));
    assert_eq!(Any::Void.into_expr(), None);
}

#[test]
fn storage_overwrites() {
    let mut s = VarsStorage::new();
    let k = "k".to_string();
    s.insert(&k, integer(1));
    s.insert(&k, integer(2));
    assert_eq!(s.get(&k), Some(&integer(2)));
    assert_eq!(s.get(&"z".to_string()), None);
}

#[test]
fn complex_literals_are_read_with_the_pattern() {
    match DataType::parse(&"-3-4i".chars().collect()) {
        Some(DataType::Complex(c)) => {
            assert_eq!(c.real, -3);
            assert_eq!(c.imaginary, -4);
            assert!(c.includes_prefix);
        },
        other => panic!("expected a complex number, got {:?}", other),
    }
    match DataType::parse(&"1+2i".chars().collect()) {
        Some(DataType::Complex(c)) => {
            assert_eq!((c.real, c.imaginary, c.includes_prefix), (1, 2, false));
        },
        other => panic!("expected a complex number, got {:?}", other),
    }
    assert_eq!(DataType::parse(&"2i".chars().collect()), None);
}

#[test]
fn character_strings() {
    assert_eq!(
        last("(make-string 3 #\\a)").unwrap(),
        Any::Primitive(DataType::String("aaa".to_string()))
    );
    let v = last("(string->list \"ab\")").unwrap();
    assert_eq!(
        list_of(v),
        vec![
            Any::Primitive(DataType::Character("a".to_string())),
            Any::Primitive(DataType::Character("b".to_string()))
        ]
    );
    assert_eq!(
        last("(list->string (string->list \"xyz\"))").unwrap(),
        Any::Primitive(DataType::String("xyz".to_string()))
    );
    assert_eq!(
        last("(list->string (list 1))"),
        Err(native_error(NativeFnError::InvalidType { got: Kind::Integer }))
    );
}

#[test]
fn values_render_as_text() {
    assert_eq!(last("(list 1 -2 (cons 3 4))").unwrap().to_text(), "(1 -2 (3 . 4))");
    assert_eq!(last("'(+ 1 \"a\")").unwrap().to_text(), "'(+ 1 \"a\")");
    assert_eq!(last("(define x 1)").unwrap().to_text(), "");
    assert_eq!(last("#t").unwrap().to_text(), "#t");
    assert_eq!(integer(-2147483648).to_text(), "-2147483648");
    assert_eq!(last("(define (f) 1) f").unwrap().to_text(), "#<procedure:f>");
}

#[test]
fn malformed_forms() {
    assert_eq!(last("(cond 1)"), Err(InterpreterError::InvalidExpression));
    assert_eq!(last("(cond [#t])"), Err(InterpreterError::InvalidExpression));
    assert_eq!(
        last("(map 5 (list 1))"),
        Err(native_error(NativeFnError::UnexpectedType {
            function: Native::MapList,
            argument_position: 1,
            got: Kind::Integer,
            expected: Kind::Callable,
        }))
    );
    assert_eq!(
        last("(map (lambda x) (list 1))"),
        Err(InterpreterError::DeclaredFnError(DeclaredFunctionError::InvalidExpression))
    );
    assert_eq!(
        last("(foldl (lambda (a) a) 0 (list 1))"),
        Err(native_error(NativeFnError::ArityMismatch { expected: 2, got: 1 }))
    );
}

#[test]
fn reader_error_kinds() {
    assert_eq!(Ast::try_from(&tokens("(a '")).unwrap_err(), AstError::MissingToken);
    assert_eq!(Ast::try_from(&tokens("(a ')")).unwrap_err(), AstError::InvalidExpression);
    assert_eq!(Ast::try_from(&tokens("(a (b)")).unwrap_err(), AstError::MissingClosingDelimiter);
}

#[test]
fn tree_with_bound_names() {
    let mut vars = VarsStorage::new();
    vars.insert(&"x".to_string(), integer(7));
    let x = Expr::Ident("x".to_string());
    assert_eq!(into_any(&x, &vars), AnyEval::Primitive(DataType::Integer(7)));
    assert_eq!(into_any(&Expr::Ident("y".to_string()), &vars), AnyEval::Ident("y".to_string()));
    let mut t = Tree::new();
    t.push_auto(Expr::Ident("f".to_string()));
    t.push_auto(x);
    let e = EvalTree::new(&t, &vars);
    assert_eq!(e.node, Some(Box::new(AnyEval::Ident("f".to_string()))));
    assert_eq!(e.children, vec![AnyEval::Primitive(DataType::Integer(7))]);
}

#[test]
fn expressions_render_as_source() {
    let ast = Ast::try_from(&tokens("(f 'x \"s\" #\\c [g])")).unwrap();
    assert_eq!(ast.inner[0].to_text(), "(f 'x \"s\" #\\c (g))");
}

#[test]
fn session_keeps_bindings() {
    let mut first = program("(define z 3)");
    first.run().unwrap();
    let vars = first.into_vars();
    let mut second = Interpreter::with_vars(Ast::try_from(&tokens("(+ z 1)")).unwrap(), vars);
    assert_eq!(second.run().unwrap(), vec![integer(4)]);
    assert!(second.is_declared_function(&"z".to_string()) == false);
    assert!(second.is_native(&"map".to_string()));
}

#[test]
fn test_len() {
    println!("{}", (3.2f64).to_string().len());
    assert_eq!(DataType::Integer(-42).len(), 3);
    assert_eq!(DataType::String("ab".to_string()).len(), 4);
    assert_eq!(Token::Ident("abc".to_string()).token_len(), 3);
    assert_eq!(Token::OpenParen.token_len(), 1);
}

#[test]
fn single_character_tokens() {
    assert_eq!(Token::try_single('('), Some(Token::OpenParen));
    assert_eq!(Token::try_single('\''), Some(Token::SingleQuote));
    assert_eq!(Token::try_single('.'), Some(Token::Dot));
    assert_eq!(Token::try_single(' '), Some(Token::Whitespace));
    assert_eq!(Token::try_single(';'), Some(Token::Comment));
    assert_eq!(Token::try_single('a'), None);
}

#[test]
fn name_stops_at_a_single_character_token() {
    assert_eq!(Token::parse_function(&"ab cd".chars().collect()), Token::Ident("ab".to_string()));
    assert_eq!(Token::parse_function(&"ab(cd".chars().collect()), Token::Ident("ab".to_string()));
    assert_eq!(tokens("(a . b)")[2], Token::Dot);
}
