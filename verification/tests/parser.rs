use mlia::grammar::Expected;
use mlia::lexical::LexErrorKind;
use mlia::parser::{
    parse_program, parse_program_verbose, parse_tokens, Expr, ParseError, Parser, Pattern, Token,
};

fn program(text: &str) -> Expr {
    parse_program(text.to_string()).expect("the text is a program")
}

fn render(e: &Expr) -> String {
    format!("{e:?}")
}

#[test]
fn test_while_loop_simple() {
    // while x do print x done
    let mut parser = Parser::new();

    parser.parse(Token::While).unwrap();
    parser.parse(Token::Identifier("x".to_string())).unwrap();
    parser.parse(Token::Do).unwrap();
    parser.parse(Token::Print).unwrap();
    parser.parse(Token::Identifier("x".to_string())).unwrap();
    parser.parse(Token::Done).unwrap();
    let result = parser.end_of_input();

    assert!(result.is_ok(), "While loop should parse successfully");
    let expr = result.unwrap();

    match expr {
        Expr::While(cond, body) => {
            assert!(
                matches!(*cond, Expr::Ident(ref s) if s == "x"),
                "Condition should be identifier 'x'"
            );
            assert!(
                matches!(*body, Expr::Call(ref f, _) if f == "print"),
                "Body should be print call"
            );
        }
        _ => panic!("Expected While expression, got {:?}", expr),
    }
}

#[test]
fn test_while_loop_with_condition() {
    // while 1 do 42 done
    let mut parser = Parser::new();

    parser.parse(Token::While).unwrap();
    parser.parse(Token::IntegerLiteral(1)).unwrap();
    parser.parse(Token::Do).unwrap();
    parser.parse(Token::IntegerLiteral(42)).unwrap();
    parser.parse(Token::Done).unwrap();
    let result = parser.end_of_input();

    assert!(result.is_ok(), "While loop with literals should parse");
    let expr = result.unwrap();

    match expr {
        Expr::While(cond, body) => {
            assert!(matches!(*cond, Expr::Number(1)), "Condition should be 1");
            assert!(matches!(*body, Expr::Number(42)), "Body should be 42");
        }
        _ => panic!("Expected While expression"),
    }
}

#[test]
fn parser_test_nested_while_loops() {
    // while x do while y do 1 done done
    let mut parser = Parser::new();

    parser.parse(Token::While).unwrap();
    parser.parse(Token::Identifier("x".to_string())).unwrap();
    parser.parse(Token::Do).unwrap();
    parser.parse(Token::While).unwrap();
    parser.parse(Token::Identifier("y".to_string())).unwrap();
    parser.parse(Token::Do).unwrap();
    parser.parse(Token::IntegerLiteral(1)).unwrap();
    parser.parse(Token::Done).unwrap();
    parser.parse(Token::Done).unwrap();
    let result = parser.end_of_input();

    assert!(result.is_ok(), "Nested while loops should parse");
    let expr = result.unwrap();

    match expr {
        Expr::While(_, body) => {
            assert!(matches!(*body, Expr::While(_, _)), "Body should be another while loop");
        }
        _ => panic!("Expected outer While expression"),
    }
}

#[test]
fn test_match_expression_simple() {
    // match x with | 1 -> 10 | _ -> 20
    let mut parser = Parser::new();

    parser.parse(Token::Match).unwrap();
    parser.parse(Token::Identifier("x".to_string())).unwrap();
    parser.parse(Token::With).unwrap();
    parser.parse(Token::Pipe).unwrap();
    parser.parse(Token::IntegerLiteral(1)).unwrap();
    parser.parse(Token::Arrow).unwrap();
    parser.parse(Token::IntegerLiteral(10)).unwrap();
    parser.parse(Token::Pipe).unwrap();
    parser.parse(Token::Underscore).unwrap();
    parser.parse(Token::Arrow).unwrap();
    parser.parse(Token::IntegerLiteral(20)).unwrap();
    let result = parser.end_of_input();

    assert!(result.is_ok(), "Match expression should parse successfully");
    let expr = result.unwrap();

    match expr {
        Expr::Match(scrutinee, arms) => {
            assert!(
                matches!(*scrutinee, Expr::Ident(ref s) if s == "x"),
                "Scrutinee should be 'x'"
            );
            assert_eq!(arms.len(), 2, "Should have 2 match arms");
            assert!(matches!(arms[0].0, Pattern::Literal(1)), "First pattern should be literal 1");
            assert!(matches!(arms[1].0, Pattern::Wildcard), "Second pattern should be wildcard");
        }
        _ => panic!("Expected Match expression, got {:?}", expr),
    }
}

#[test]
fn test_match_expression_multiple_literals() {
    // match 5 with | 1 -> 10 | 2 -> 20 | 3 -> 30 | _ -> 0
    let mut parser = Parser::new();

    parser.parse(Token::Match).unwrap();
    parser.parse(Token::IntegerLiteral(5)).unwrap();
    parser.parse(Token::With).unwrap();
    parser.parse(Token::Pipe).unwrap();
    parser.parse(Token::IntegerLiteral(1)).unwrap();
    parser.parse(Token::Arrow).unwrap();
    parser.parse(Token::IntegerLiteral(10)).unwrap();
    parser.parse(Token::Pipe).unwrap();
    parser.parse(Token::IntegerLiteral(2)).unwrap();
    parser.parse(Token::Arrow).unwrap();
    parser.parse(Token::IntegerLiteral(20)).unwrap();
    parser.parse(Token::Pipe).unwrap();
    parser.parse(Token::IntegerLiteral(3)).unwrap();
    parser.parse(Token::Arrow).unwrap();
    parser.parse(Token::IntegerLiteral(30)).unwrap();
    parser.parse(Token::Pipe).unwrap();
    parser.parse(Token::Underscore).unwrap();
    parser.parse(Token::Arrow).unwrap();
    parser.parse(Token::IntegerLiteral(0)).unwrap();
    let result = parser.end_of_input();

    assert!(result.is_ok(), "Match with multiple arms should parse");
    let expr = result.unwrap();

    match expr {
        Expr::Match(_, arms) => {
            assert_eq!(arms.len(), 4, "Should have 4 match arms");
            assert!(matches!(arms[0].0, Pattern::Literal(1)));
            assert!(matches!(arms[1].0, Pattern::Literal(2)));
            assert!(matches!(arms[2].0, Pattern::Literal(3)));
            assert!(matches!(arms[3].0, Pattern::Wildcard));
        }
        _ => panic!("Expected Match expression"),
    }
}

#[test]
fn test_match_with_wildcard_only() {
    // match x with | _ -> 42
    let mut parser = Parser::new();

    parser.parse(Token::Match).unwrap();
    parser.parse(Token::Identifier("x".to_string())).unwrap();
    parser.parse(Token::With).unwrap();
    parser.parse(Token::Pipe).unwrap();
    parser.parse(Token::Underscore).unwrap();
    parser.parse(Token::Arrow).unwrap();
    parser.parse(Token::IntegerLiteral(42)).unwrap();
    let result = parser.end_of_input();

    assert!(result.is_ok(), "Match with only wildcard should parse");
    let expr = result.unwrap();

    match expr {
        Expr::Match(_, arms) => {
            assert_eq!(arms.len(), 1, "Should have 1 match arm");
            assert!(matches!(arms[0].0, Pattern::Wildcard), "Pattern should be wildcard");
        }
        _ => panic!("Expected Match expression"),
    }
}

#[test]
fn test_match_expression_with_complex_result() {
    // match x with | 1 -> print x | _ -> 0
    let mut parser = Parser::new();

    parser.parse(Token::Match).unwrap();
    parser.parse(Token::Identifier("x".to_string())).unwrap();
    parser.parse(Token::With).unwrap();
    parser.parse(Token::Pipe).unwrap();
    parser.parse(Token::IntegerLiteral(1)).unwrap();
    parser.parse(Token::Arrow).unwrap();
    parser.parse(Token::Print).unwrap();
    parser.parse(Token::Identifier("x".to_string())).unwrap();
    parser.parse(Token::Pipe).unwrap();
    parser.parse(Token::Underscore).unwrap();
    parser.parse(Token::Arrow).unwrap();
    parser.parse(Token::IntegerLiteral(0)).unwrap();
    let result = parser.end_of_input();

    assert!(result.is_ok(), "Match with expression results should parse");
    let expr = result.unwrap();

    match expr {
        Expr::Match(_, arms) => {
            assert_eq!(arms.len(), 2);
            assert!(
                matches!(arms[0].1, Expr::Call(ref f, _) if f == "print"),
                "First result should be print call"
            );
        }
        _ => panic!("Expected Match expression"),
    }
}

#[test]
fn test_pattern_literal() {
    let mut parser = Parser::new();

    parser.parse(Token::Match).unwrap();
    parser.parse(Token::IntegerLiteral(100)).unwrap();
    parser.parse(Token::With).unwrap();
    parser.parse(Token::Pipe).unwrap();
    parser.parse(Token::IntegerLiteral(100)).unwrap();
    parser.parse(Token::Arrow).unwrap();
    parser.parse(Token::IntegerLiteral(1)).unwrap();
    parser.parse(Token::Pipe).unwrap();
    parser.parse(Token::Underscore).unwrap();
    parser.parse(Token::Arrow).unwrap();
    parser.parse(Token::IntegerLiteral(0)).unwrap();
    let result = parser.end_of_input();

    assert!(result.is_ok(), "Match with literal pattern should parse");
}

#[test]
fn literals_and_names() {
    assert_eq!(render(&program("42")), "Number(42)");
    assert_eq!(render(&program("-7")), "Number(-7)");
    assert_eq!(render(&program("x")), "Ident(\"x\")");
    assert_eq!(render(&program("(x)")), "Ident(\"x\")");
    assert_eq!(render(&program("((42))")), "Number(42)");
}

#[test]
fn declaration_reaches_to_the_right() {
    assert_eq!(
        render(&program("decl x <- 5 in x")),
        "Decl(\"x\", [], Number(5), Ident(\"x\"))"
    );
    assert_eq!(
        render(&program("decl x <- 1 in x ; y")),
        "Decl(\"x\", [], Number(1), Sequence(Ident(\"x\"), Ident(\"y\")))"
    );
    assert_eq!(
        render(&program("decl x <- 1 in decl x <- 2 in x")),
        "Decl(\"x\", [], Number(1), Decl(\"x\", [], Number(2), Ident(\"x\")))"
    );
    assert_eq!(
        render(&program("1 ; decl y <- 2 in y")),
        "Sequence(Number(1), Decl(\"y\", [], Number(2), Ident(\"y\")))"
    );
}

#[test]
fn declaration_with_parameters_is_kept() {
    assert_eq!(
        render(&program("decl f a b <- + a b in 0")),
        "Decl(\"f\", [\"a\", \"b\"], Call(\"+\", [Ident(\"a\"), Ident(\"b\")]), Number(0))"
    );
}

#[test]
fn sequence_groups_to_the_right() {
    assert_eq!(render(&program("1 ; 2")), "Sequence(Number(1), Number(2))");
    assert_eq!(
        render(&program("1 ; 2 ; 3")),
        "Sequence(Number(1), Sequence(Number(2), Number(3)))"
    );
    assert_eq!(
        render(&program("(1 ; 2) ; 3")),
        "Sequence(Sequence(Number(1), Number(2)), Number(3))"
    );
}

#[test]
fn assignment_groups_to_the_right() {
    assert_eq!(render(&program("x <- 1")), "Assign(\"x\", Number(1))");
    assert_eq!(
        render(&program("x <- y <- + 1 2")),
        "Assign(\"x\", Assign(\"y\", Call(\"+\", [Number(1), Number(2)])))"
    );
    assert_eq!(
        render(&program("x <- 1 ; 2")),
        "Sequence(Assign(\"x\", Number(1)), Number(2))"
    );
}

#[test]
fn calls_of_built_ins() {
    for head in ["+", "-", "*", "/", "%", "<", ">", "=", "!=", "|"] {
        let text = format!("{head} 1 x");
        assert_eq!(
            render(&program(&text)),
            format!("Call({head:?}, [Number(1), Ident(\"x\")])"),
            "{text}"
        );
    }
    assert_eq!(render(&program("print 3")), "Call(\"print\", [Number(3)])");
    assert_eq!(
        render(&program("+ ( * 2 3) (print 4)")),
        "Call(\"+\", [Call(\"*\", [Number(2), Number(3)]), Call(\"print\", [Number(4)])])"
    );
}

#[test]
fn heads_that_only_the_parser_knows() {
    let tokens = vec![Token::Exclam, Token::IntegerLiteral(1)];
    assert_eq!(render(&parse_tokens(&tokens).unwrap()), "Call(\"!\", [Number(1)])");
    let tokens = vec![Token::Ampersand, Token::IntegerLiteral(1), Token::IntegerLiteral(2)];
    assert_eq!(
        render(&parse_tokens(&tokens).unwrap()),
        "Call(\"&\", [Number(1), Number(2)])"
    );
}

#[test]
fn call_in_parentheses_takes_any_number_of_atoms() {
    assert_eq!(render(&program("(f 1)")), "Call(\"f\", [Number(1)])");
    assert_eq!(
        render(&program("(f 1 x (g 2) (3))")),
        "Call(\"f\", [Number(1), Ident(\"x\"), Call(\"g\", [Number(2)]), Number(3)])"
    );
    assert_eq!(render(&program("(x <- 1)")), "Assign(\"x\", Number(1))");
    assert_eq!(render(&program("(x ; y)")), "Sequence(Ident(\"x\"), Ident(\"y\"))");
    assert_eq!(
        render(&program("(f while 0 do 1 done)")),
        "Call(\"f\", [While(Number(0), Number(1))])"
    );
}

#[test]
fn loop_and_match_are_atoms() {
    assert_eq!(
        render(&program("+ while 0 do 1 done 2")),
        "Call(\"+\", [While(Number(0), Number(1)), Number(2)])"
    );
    assert_eq!(
        render(&program("+ (match 2 with | 1 -> 10 | 2 -> 20 | _ -> 30) 5")),
        "Call(\"+\", [Match(Number(2), [(Literal(1), Number(10)), (Literal(2), Number(20)), \
         (Wildcard, Number(30))]), Number(5)])"
    );
    assert_eq!(
        render(&program("while i do (sum <- + sum i ; i <- - i 1) done ; sum")),
        "Sequence(While(Ident(\"i\"), Sequence(Assign(\"sum\", Call(\"+\", [Ident(\"sum\"), \
         Ident(\"i\")])), Assign(\"i\", Call(\"-\", [Ident(\"i\"), Number(1)])))), Ident(\"sum\"))"
    );
}

#[test]
fn arms_belong_to_the_innermost_match() {
    assert_eq!(
        render(&program("match a with | 1 -> match b with | 2 -> x | _ -> y")),
        "Match(Ident(\"a\"), [(Literal(1), Match(Ident(\"b\"), [(Literal(2), Ident(\"x\")), \
         (Wildcard, Ident(\"y\"))]))])"
    );
    assert_eq!(
        render(&program("match a with | 1 -> (match b with | 2 -> x) | _ -> y")),
        "Match(Ident(\"a\"), [(Literal(1), Match(Ident(\"b\"), [(Literal(2), Ident(\"x\"))])), \
         (Wildcard, Ident(\"y\"))])"
    );
    assert_eq!(
        render(&program("match a with | -1 -> x ; y | _ -> z")),
        "Match(Ident(\"a\"), [(Literal(-1), Sequence(Ident(\"x\"), Ident(\"y\"))), (Wildcard, \
         Ident(\"z\"))])"
    );
}

fn syntax_fault(text: &str) -> (usize, Option<Token>, Expected) {
    match parse_program(text.to_string()) {
        Err(ParseError::Syntax(e)) => (e.index, e.found, e.expected),
        other => panic!("expected a syntax fault, got {other:?}"),
    }
}

#[test]
fn faults_name_the_token_and_its_place() {
    assert_eq!(syntax_fault(""), (0, None, Expected::Expression));
    assert_eq!(syntax_fault("+ 1"), (2, None, Expected::Expression));
    assert_eq!(syntax_fault("1 2"), (1, Some(Token::IntegerLiteral(2)), Expected::EndOfInput));
    assert_eq!(syntax_fault("x y"), (1, Some(Token::Identifier("y".to_string())), Expected::EndOfInput));
    assert_eq!(syntax_fault("decl 1"), (1, Some(Token::IntegerLiteral(1)), Expected::Identifier));
    assert_eq!(syntax_fault("decl x 1"), (2, Some(Token::IntegerLiteral(1)), Expected::Assign));
    assert_eq!(syntax_fault("decl x <- 1 2"), (4, Some(Token::IntegerLiteral(2)), Expected::In));
    assert_eq!(syntax_fault("decl x <- 1 in"), (5, None, Expected::Expression));
    assert_eq!(syntax_fault("( 1"), (2, None, Expected::ParenR));
    assert_eq!(syntax_fault("(f 1 ; 2)"), (3, Some(Token::Semicolon), Expected::ParenR));
    assert_eq!(syntax_fault("while 1 2"), (2, Some(Token::IntegerLiteral(2)), Expected::Do));
    assert_eq!(syntax_fault("while 1 do 2"), (4, None, Expected::Done));
    assert_eq!(syntax_fault("match 1 | 1 -> 2"), (2, Some(Token::Pipe), Expected::With));
    assert_eq!(syntax_fault("match 1 with 1"), (3, Some(Token::IntegerLiteral(1)), Expected::Pipe));
    assert_eq!(syntax_fault("match 1 with | x"), (4, Some(Token::Identifier("x".to_string())), Expected::Pattern));
    assert_eq!(syntax_fault("match 1 with | 1 2"), (5, Some(Token::IntegerLiteral(2)), Expected::Arrow));
    assert_eq!(syntax_fault("x <- decl y <- 1 in y"), (2, Some(Token::Decl), Expected::Expression));
    assert_eq!(syntax_fault("+ + 1 2 3"), (1, Some(Token::Plus), Expected::Expression));
    assert_eq!(syntax_fault(")"), (0, Some(Token::ParenR), Expected::Expression));
    assert_eq!(syntax_fault("1 ;"), (2, None, Expected::Expression));
}

#[test]
fn lexical_fault_comes_before_any_syntax_fault() {
    match parse_program(") 10a".to_string()) {
        Err(ParseError::Lexical(e)) => {
            assert_eq!(e.kind, LexErrorKind::InvalidAfterDigit);
            assert_eq!(e.position, 4);
        }
        other => panic!("expected a lexical fault, got {other:?}"),
    }
}

#[test]
fn verbose_returns_the_tokens_too() {
    let (e, tokens) = parse_program_verbose("decl x <- 5 in x".to_string()).unwrap();
    assert_eq!(render(&e), "Decl(\"x\", [], Number(5), Ident(\"x\"))");
    assert_eq!(
        tokens,
        vec![
            Token::Decl,
            Token::Identifier("x".to_string()),
            Token::Assign,
            Token::IntegerLiteral(5),
            Token::In,
            Token::Identifier("x".to_string()),
        ]
    );
    assert!(matches!(
        parse_program_verbose("decl".to_string()),
        Err(ParseError::Syntax(_))
    ));
    assert!(matches!(
        parse_program_verbose("#".to_string()),
        Err(ParseError::Lexical(_))
    ));
}

#[test]
fn parser_refuses_a_token_at_once_and_stays_as_it_was() {
    let mut parser = Parser::new();
    parser.parse(Token::Plus).unwrap();
    parser.parse(Token::IntegerLiteral(1)).unwrap();
    let e = parser.parse(Token::Semicolon).unwrap_err();
    assert_eq!((e.index, e.found, e.expected), (2, Some(Token::Semicolon), Expected::Expression));
    parser.parse(Token::IntegerLiteral(2)).unwrap();
    let e = parser.parse(Token::IntegerLiteral(3)).unwrap_err();
    assert_eq!(e.expected, Expected::EndOfInput);
    assert_eq!(
        render(&parser.end_of_input().unwrap()),
        "Call(\"+\", [Number(1), Number(2)])"
    );
}

#[test]
fn parser_with_too_few_tokens_fails_at_the_end() {
    let mut parser = Parser::new();
    parser.parse(Token::While).unwrap();
    parser.parse(Token::IntegerLiteral(1)).unwrap();
    let e = parser.end_of_input().unwrap_err();
    assert_eq!((e.index, e.found, e.expected), (2, None, Expected::Do));
    assert!(Parser::new().end_of_input().is_err());
}

fn head_token(head: &str, arity: usize) -> Option<Token> {
    match (head, arity) {
        ("print", 1) => Some(Token::Print),
        ("!", 1) => Some(Token::Exclam),
        ("+", 2) => Some(Token::Plus),
        ("-", 2) => Some(Token::Minus),
        ("*", 2) => Some(Token::Star),
        ("/", 2) => Some(Token::Slash),
        ("%", 2) => Some(Token::Percent),
        ("<", 2) => Some(Token::Less),
        (">", 2) => Some(Token::Greater),
        ("=", 2) => Some(Token::Equals),
        ("!=", 2) => Some(Token::NotEquals),
        ("&", 2) => Some(Token::Ampersand),
        ("|", 2) => Some(Token::Pipe),
        _ => None,
    }
}

fn write_inner(e: &Expr, out: &mut Vec<Token>) {
    match e {
        Expr::Decl(name, params, value, body) => {
            out.push(Token::Decl);
            out.push(Token::Identifier(name.clone()));
            out.extend(params.iter().map(|p| Token::Identifier(p.clone())));
            out.push(Token::Assign);
            write_expr(value, out);
            out.push(Token::In);
            write_expr(body, out);
        }
        Expr::Sequence(first, second) => {
            write_assign(first, out);
            out.push(Token::Semicolon);
            write_expr(second, out);
        }
        Expr::Assign(name, value) => {
            out.push(Token::Identifier(name.clone()));
            out.push(Token::Assign);
            write_assign(value, out);
        }
        Expr::Call(head, args) => {
            out.push(head_token(head, args.len()).expect("a built-in"));
            for arg in args {
                write_atom(arg, out);
            }
        }
        Expr::Match(scrutinee, arms) => {
            out.push(Token::Match);
            write_expr(scrutinee, out);
            out.push(Token::With);
            for (pattern, body) in arms {
                out.push(Token::Pipe);
                out.push(match pattern {
                    Pattern::Literal(n) => Token::IntegerLiteral(*n),
                    Pattern::Wildcard => Token::Underscore,
                });
                out.push(Token::Arrow);
                write_expr(body, out);
            }
        }
        _ => unreachable!(),
    }
}

fn is_head_call(e: &Expr) -> bool {
    matches!(e, Expr::Call(head, args) if head_token(head, args.len()).is_some())
}

fn write_atom(e: &Expr, out: &mut Vec<Token>) {
    match e {
        Expr::Number(n) => out.push(Token::IntegerLiteral(*n)),
        Expr::Ident(name) => out.push(Token::Identifier(name.clone())),
        Expr::While(cond, body) => {
            out.push(Token::While);
            write_expr(cond, out);
            out.push(Token::Do);
            write_expr(body, out);
            out.push(Token::Done);
        }
        Expr::Call(head, args) if !is_head_call(e) => {
            out.push(Token::ParenL);
            out.push(Token::Identifier(head.clone()));
            for arg in args {
                write_atom(arg, out);
            }
            out.push(Token::ParenR);
        }
        _ => {
            out.push(Token::ParenL);
            write_inner(e, out);
            out.push(Token::ParenR);
        }
    }
}

fn write_call(e: &Expr, out: &mut Vec<Token>) {
    if is_head_call(e) {
        write_inner(e, out);
    } else {
        write_atom(e, out);
    }
}

fn write_assign(e: &Expr, out: &mut Vec<Token>) {
    if matches!(e, Expr::Assign(..)) {
        write_inner(e, out);
    } else {
        write_call(e, out);
    }
}

fn write_expr(e: &Expr, out: &mut Vec<Token>) {
    if matches!(e, Expr::Decl(..) | Expr::Sequence(..)) {
        write_inner(e, out);
    } else {
        write_assign(e, out);
    }
}

#[test]
fn what_is_written_is_read_back() {
    let n = |k| Expr::Number(k);
    let x = |s: &str| Expr::Ident(s.to_string());
    let call = |h: &str, args: Vec<Expr>| Expr::Call(h.to_string(), args);
    let samples = vec![
        n(1),
        x("a"),
        Expr::Sequence(
            Box::new(Expr::Sequence(Box::new(x("a")), Box::new(n(2)))),
            Box::new(Expr::Decl("d".to_string(), vec![], Box::new(n(3)), Box::new(x("d")))),
        ),
        Expr::Assign(
            "v".to_string(),
            Box::new(Expr::Sequence(Box::new(n(1)), Box::new(n(2)))),
        ),
        call("+", vec![call("-", vec![n(1), n(2)]), Expr::Assign("v".to_string(), Box::new(n(3)))]),
        call("f", vec![x("g"), call("g", vec![n(1)]), call("print", vec![n(2), n(3)])]),
        call("|", vec![n(1), call("!", vec![n(0)])]),
        Expr::While(
            Box::new(call("<", vec![x("i"), n(10)])),
            Box::new(Expr::While(Box::new(n(0)), Box::new(n(1)))),
        ),
        Expr::Match(
            Box::new(x("s")),
            vec![
                (
                    Pattern::Literal(-1),
                    Expr::Match(Box::new(n(1)), vec![(Pattern::Wildcard, n(2))]),
                ),
                (Pattern::Literal(2), Expr::Sequence(Box::new(n(3)), Box::new(n(4)))),
                (Pattern::Wildcard, call("|", vec![n(5), n(6)])),
            ],
        ),
        Expr::Decl(
            "f".to_string(),
            vec!["a".to_string(), "b".to_string()],
            Box::new(Expr::Decl("g".to_string(), vec![], Box::new(n(1)), Box::new(n(2)))),
            Box::new(Expr::Sequence(
                Box::new(Expr::Match(Box::new(n(1)), vec![(Pattern::Wildcard, x("f"))])),
                Box::new(x("g")),
            )),
        ),
    ];
    for e in samples {
        let mut tokens = Vec::new();
        write_expr(&e, &mut tokens);
        let read = parse_tokens(&tokens).expect("what is written is a program");
        assert_eq!(render(&read), render(&e), "{tokens:?}");
    }
}

#[test]
fn a_refused_token_stays_refused() {
    let refused = vec![Token::Plus, Token::IntegerLiteral(1), Token::Semicolon];
    let first = parse_tokens(&refused).unwrap_err();
    for more in [
        vec![],
        vec![Token::IntegerLiteral(2)],
        vec![Token::ParenR, Token::Done],
        vec![Token::Semicolon, Token::Identifier("x".to_string())],
    ] {
        let mut longer = refused.clone();
        longer.extend(more);
        assert_eq!(parse_tokens(&longer).unwrap_err(), first);
    }
}
