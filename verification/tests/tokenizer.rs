use mlia::lexical::{LexError, LexErrorKind};
use mlia::parser::Token;
use mlia::tokenizer::{classify_char, is_identifier_char, next_state, CharClass, Lexer, State};

fn tokens_of(text: &str) -> Vec<Token> {
    let mut lexer = Lexer::new(text.to_string());
    lexer.tokenize().expect("the text is a sequence of tokens")
}

fn fault_of(text: &str) -> LexError {
    let mut lexer = Lexer::new(text.to_string());
    lexer.tokenize().expect_err("the text is no sequence of tokens")
}

fn name(text: &str) -> Token {
    Token::Identifier(text.to_string())
}

#[test]
fn test_integer_literals() {
    let mut lexer = Lexer::new("123 456123 0".to_string());
    let tokens = lexer.tokenize();
    assert!(tokens.is_ok(), "the lexer should not fail: {tokens:?}");
    let tokens = tokens.unwrap();

    assert_eq!(tokens[0], Token::IntegerLiteral(123), "token 0 is no integer: {:?}", tokens[0]);
    assert_eq!(
        tokens[1],
        Token::IntegerLiteral(456_123),
        "token 1 is no integer: {:?}",
        tokens[1]
    );
    assert_eq!(tokens[2], Token::IntegerLiteral(0), "token 2 is no integer: {:?}", tokens[2]);
}

#[test]
fn test_identifiers() {
    let mut lexer = Lexer::new("hola mundo cómo estas _test".to_string());
    let tokens = lexer.tokenize();

    assert!(tokens.is_ok(), "the lexer should not fail: {tokens:?}");
    let tokens = tokens.unwrap();

    assert_eq!(tokens[0], Token::Identifier("hola".to_string()));
    assert_eq!(tokens[1], Token::Identifier("mundo".to_string()));
    assert_eq!(tokens[2], Token::Identifier("cómo".to_string()));
    assert_eq!(tokens[3], Token::Identifier("estas".to_string()));
    assert_eq!(tokens[4], Token::Identifier("_test".to_string()));
}

#[test]
fn test_keywords() {
    let mut lexer = Lexer::new("decl".to_string());
    let tokens = lexer.tokenize();
    assert!(tokens.is_ok(), "the lexer should not fail: {tokens:?}");
    let tokens = tokens.unwrap();

    assert_eq!(tokens[0], Token::Decl, "token 0 is no keyword: {:?}", tokens[0]);
}

#[test]
fn test_parentheses() {
    let mut lexer = Lexer::new("( )".to_string());
    let tokens = lexer.tokenize();
    assert!(tokens.is_ok(), "the lexer should not fail: {tokens:?}");
    let tokens = tokens.unwrap();

    assert_eq!(tokens[0], Token::ParenL, "token 0 is no left parenthesis: {:?}", tokens[0]);
    assert_eq!(tokens[1], Token::ParenR, "token 1 is no right parenthesis: {:?}", tokens[1]);
}

#[test]
fn test_parentheses_in_expression() {
    let mut lexer = Lexer::new("(+ 1 2)".to_string());
    let tokens = lexer.tokenize();
    assert!(tokens.is_ok(), "the lexer should not fail: {tokens:?}");
    let tokens = tokens.unwrap();

    assert_eq!(tokens[0], Token::ParenL);
    assert_eq!(tokens[1], Token::Plus);
    assert_eq!(tokens[2], Token::IntegerLiteral(1));
    assert_eq!(tokens[3], Token::IntegerLiteral(2));
    assert_eq!(tokens[4], Token::ParenR);
}

#[test]
fn test_nested_parentheses() {
    let mut lexer = Lexer::new("((()))".to_string());
    let tokens = lexer.tokenize();
    assert!(tokens.is_ok(), "the lexer should not fail: {tokens:?}");
    let tokens = tokens.unwrap();

    assert_eq!(tokens[0], Token::ParenL);
    assert_eq!(tokens[1], Token::ParenL);
    assert_eq!(tokens[2], Token::ParenL);
    assert_eq!(tokens[3], Token::ParenR);
    assert_eq!(tokens[4], Token::ParenR);
    assert_eq!(tokens[5], Token::ParenR);
}

#[test]
fn test_comment_vs_parenthesis() {
    let mut lexer = Lexer::new("( (* comment *) )".to_string());
    let tokens = lexer.tokenize();
    assert!(tokens.is_ok(), "the lexer should not fail: {tokens:?}");
    let tokens = tokens.unwrap();

    assert_eq!(tokens[0], Token::ParenL);
    assert_eq!(tokens[1], Token::ParenR);
    assert_eq!(tokens.len(), 2);
}

#[test]
fn test_while_keyword() {
    let mut lexer = Lexer::new("while".to_string());
    let tokens = lexer.tokenize().expect("Tokenization should succeed");
    assert_eq!(tokens[0], Token::While, "Should recognize 'while' keyword");
}

#[test]
fn test_do_keyword() {
    let mut lexer = Lexer::new("do".to_string());
    let tokens = lexer.tokenize().expect("Tokenization should succeed");
    assert_eq!(tokens[0], Token::Do, "Should recognize 'do' keyword");
}

#[test]
fn test_done_keyword() {
    let mut lexer = Lexer::new("done".to_string());
    let tokens = lexer.tokenize().expect("Tokenization should succeed");
    assert_eq!(tokens[0], Token::Done, "Should recognize 'done' keyword");
}

#[test]
fn test_while_do_done_sequence() {
    let mut lexer = Lexer::new("while do done".to_string());
    let tokens = lexer.tokenize().expect("Tokenization should succeed");
    assert_eq!(tokens.len(), 3, "Should have 3 tokens");
    assert_eq!(tokens[0], Token::While);
    assert_eq!(tokens[1], Token::Do);
    assert_eq!(tokens[2], Token::Done);
}

#[test]
fn test_match_keyword() {
    let mut lexer = Lexer::new("match".to_string());
    let tokens = lexer.tokenize().expect("Tokenization should succeed");
    assert_eq!(tokens[0], Token::Match, "Should recognize 'match' keyword");
}

#[test]
fn test_with_keyword() {
    let mut lexer = Lexer::new("with".to_string());
    let tokens = lexer.tokenize().expect("Tokenization should succeed");
    assert_eq!(tokens[0], Token::With, "Should recognize 'with' keyword");
}

#[test]
fn test_pipe_token() {
    let mut lexer = Lexer::new("|".to_string());
    let tokens = lexer.tokenize().expect("Tokenization should succeed");
    assert_eq!(tokens[0], Token::Pipe, "Should recognize '|' token");
}

#[test]
fn test_underscore_token() {
    let mut lexer = Lexer::new("_".to_string());
    let tokens = lexer.tokenize().expect("Tokenization should succeed");
    assert_eq!(tokens[0], Token::Underscore, "Should recognize '_' (wildcard) token");
}

#[test]
fn test_arrow_token() {
    let mut lexer = Lexer::new("->".to_string());
    let tokens = lexer.tokenize().expect("Tokenization should succeed");
    assert_eq!(tokens[0], Token::Arrow, "Should recognize '->' token");
}

#[test]
fn test_match_expression_tokens() {
    let mut lexer = Lexer::new("match x with | 1 -> 10 | _ -> 20".to_string());
    let tokens = lexer.tokenize().expect("Tokenization should succeed");

    assert_eq!(tokens[0], Token::Match);
    assert!(matches!(tokens[1], Token::Identifier(ref s) if s == "x"));
    assert_eq!(tokens[2], Token::With);
    assert_eq!(tokens[3], Token::Pipe);
    assert_eq!(tokens[4], Token::IntegerLiteral(1));
    assert_eq!(tokens[5], Token::Arrow);
    assert_eq!(tokens[6], Token::IntegerLiteral(10));
    assert_eq!(tokens[7], Token::Pipe);
    assert_eq!(tokens[8], Token::Underscore);
    assert_eq!(tokens[9], Token::Arrow);
    assert_eq!(tokens[10], Token::IntegerLiteral(20));
}

#[test]
fn test_underscore_in_identifier_vs_wildcard() {
    let mut lexer = Lexer::new("_".to_string());
    let tokens = lexer.tokenize().expect("Tokenization should succeed");
    assert_eq!(tokens[0], Token::Underscore, "Single '_' should be wildcard");

    let mut lexer = Lexer::new("_foo".to_string());
    let tokens = lexer.tokenize().expect("Tokenization should succeed");
    assert!(
        matches!(tokens[0], Token::Identifier(ref s) if s == "_foo"),
        "_foo should be identifier"
    );

    let mut lexer = Lexer::new("foo_bar".to_string());
    let tokens = lexer.tokenize().expect("Tokenization should succeed");
    assert!(
        matches!(tokens[0], Token::Identifier(ref s) if s == "foo_bar"),
        "foo_bar should be identifier"
    );
}

#[test]
fn every_keyword_alone_is_its_token() {
    let table = vec![
        ("decl", Token::Decl),
        ("while", Token::While),
        ("do", Token::Do),
        ("done", Token::Done),
        ("match", Token::Match),
        ("with", Token::With),
        ("in", Token::In),
        ("print", Token::Print),
        ("<", Token::Less),
        (">", Token::Greater),
        ("=", Token::Equals),
        ("!=", Token::NotEquals),
        ("+", Token::Plus),
        ("-", Token::Minus),
        ("*", Token::Star),
        ("/", Token::Slash),
        ("%", Token::Percent),
        ("->", Token::Arrow),
        ("<-", Token::Assign),
        ("|", Token::Pipe),
        ("_", Token::Underscore),
        (";", Token::Semicolon),
        ("(", Token::ParenL),
        (")", Token::ParenR),
    ];
    for (spelling, token) in table {
        assert_eq!(tokens_of(spelling), vec![token], "{spelling}");
    }
}

#[test]
fn keyword_followed_by_word_character_is_identifier() {
    assert_eq!(tokens_of("decl1"), vec![name("decl1")]);
    assert_eq!(tokens_of("whilex"), vec![name("whilex")]);
    assert_eq!(tokens_of("do_"), vec![name("do_")]);
    assert_eq!(tokens_of("in+"), vec![name("in+")]);
    assert_eq!(tokens_of("print&"), vec![name("print&")]);
    assert_eq!(tokens_of("!=="), vec![name("!==")]);
    assert_eq!(tokens_of("<<"), vec![name("<<")]);
    assert_eq!(tokens_of("_9"), vec![name("_9")]);
}

#[test]
fn pipe_begins_and_continues_words() {
    assert_eq!(tokens_of("|x"), vec![name("|x")]);
    assert_eq!(tokens_of("decl|"), vec![name("decl|")]);
    assert_eq!(tokens_of("||"), vec![name("||")]);
    assert_eq!(tokens_of("a|b"), vec![name("a|b")]);
    assert_eq!(tokens_of("a | b"), vec![name("a"), Token::Pipe, name("b")]);
    assert_eq!(tokens_of("|(|)"), vec![Token::Pipe, Token::ParenL, Token::Pipe, Token::ParenR]);
    assert_eq!(tokens_of("1|"), vec![Token::IntegerLiteral(1), Token::Pipe]);
    assert_eq!(tokens_of("1|2"), vec![Token::IntegerLiteral(1), name("|2")]);
}

#[test]
fn operators_fuse_between_white_space() {
    assert_eq!(tokens_of(" <- "), vec![Token::Assign]);
    assert_eq!(tokens_of(" -> "), vec![Token::Arrow]);
    assert_eq!(tokens_of("\t<-\n"), vec![Token::Assign]);
    assert_eq!(
        tokens_of("x <- 1"),
        vec![name("x"), Token::Assign, Token::IntegerLiteral(1)]
    );
    assert_eq!(tokens_of("<-("), vec![Token::Assign, Token::ParenL]);
    assert_eq!(tokens_of("->;"), vec![Token::Arrow, Token::Semicolon]);
    assert_eq!(tokens_of("<- |"), vec![Token::Assign, Token::Pipe]);
}

#[test]
fn operators_followed_by_word_characters_are_identifiers() {
    assert_eq!(tokens_of("<-foo"), vec![name("<-foo")]);
    assert_eq!(tokens_of("->baz"), vec![name("->baz")]);
    assert_eq!(tokens_of("<foo"), vec![name("<foo")]);
    assert_eq!(tokens_of("<-1"), vec![name("<-1")]);
    assert_eq!(tokens_of("->>"), vec![name("->>")]);
    assert_eq!(tokens_of("<>"), vec![name("<>")]);
    assert_eq!(tokens_of("<-|"), vec![name("<-|")]);
    assert_eq!(tokens_of("->|x"), vec![name("->|x")]);
}

#[test]
fn negative_literals() {
    assert_eq!(tokens_of("-5"), vec![Token::IntegerLiteral(-5)]);
    assert_eq!(tokens_of("- 5"), vec![Token::Minus, Token::IntegerLiteral(5)]);
    assert_eq!(tokens_of("--5"), vec![name("--5")]);
    assert_eq!(tokens_of("+5"), vec![name("+5")]);
    assert_eq!(tokens_of("007"), vec![Token::IntegerLiteral(7)]);
    assert_eq!(tokens_of("-0"), vec![Token::IntegerLiteral(0)]);
    assert_eq!(
        tokens_of("x -1"),
        vec![name("x"), Token::IntegerLiteral(-1)]
    );
}

#[test]
fn literals_at_the_ends_of_the_range() {
    assert_eq!(tokens_of("9223372036854775807"), vec![Token::IntegerLiteral(i64::MAX)]);
    assert_eq!(tokens_of("-9223372036854775808"), vec![Token::IntegerLiteral(i64::MIN)]);
    assert_eq!(tokens_of("0009223372036854775807"), vec![Token::IntegerLiteral(i64::MAX)]);
}

#[test]
fn literal_out_of_range_is_a_fault() {
    let e = fault_of("9223372036854775808");
    assert_eq!(e.kind, LexErrorKind::IntegerOverflow);
    assert_eq!((e.position, e.line, e.column), (19, 1, 20));
    let e = fault_of("-9223372036854775809 ");
    assert_eq!(e.kind, LexErrorKind::IntegerOverflow);
    assert_eq!(e.position, 20);
    let e = fault_of("1 99999999999999999999999999999999");
    assert_eq!(e.kind, LexErrorKind::IntegerOverflow);
}

#[test]
fn digit_followed_by_letter_is_a_fault() {
    let e = fault_of("10a");
    assert_eq!(
        e,
        LexError { kind: LexErrorKind::InvalidAfterDigit, position: 2, line: 1, column: 3 }
    );
    assert_eq!(fault_of("1+2").kind, LexErrorKind::InvalidAfterDigit);
    assert_eq!(fault_of("-5a").kind, LexErrorKind::InvalidAfterDigit);
    assert_eq!(fault_of("7_").kind, LexErrorKind::InvalidAfterDigit);
    assert_eq!(tokens_of("x1y"), vec![name("x1y")]);
}

#[test]
fn character_of_no_class_is_a_fault() {
    let e = fault_of("a\nb $");
    assert_eq!(
        e,
        LexError { kind: LexErrorKind::UnexpectedChar, position: 4, line: 2, column: 3 }
    );
    assert_eq!(fault_of("#").kind, LexErrorKind::UnexpectedChar);
    assert_eq!(fault_of("(* don't *)").kind, LexErrorKind::UnexpectedChar);
    assert_eq!(fault_of("12\u{d7}").kind, LexErrorKind::UnexpectedChar);
}

#[test]
fn reserved_punctuation_outside_a_comment_is_a_fault() {
    let e = fault_of("x {");
    assert_eq!(
        e,
        LexError { kind: LexErrorKind::UnexpectedChar, position: 2, line: 1, column: 3 }
    );
    assert_eq!(fault_of("1.5").position, 1);
    assert_eq!(fault_of("a:b").position, 1);
    assert_eq!(tokens_of("(* { } [ ] . : *) 1"), vec![Token::IntegerLiteral(1)]);
}

#[test]
fn comments() {
    assert_eq!(tokens_of("(* a *)"), vec![]);
    assert_eq!(tokens_of("1 (* a ** b *) 2"), vec![Token::IntegerLiteral(1), Token::IntegerLiteral(2)]);
    assert_eq!(tokens_of("(**)"), vec![]);
    assert_eq!(tokens_of("(***)x"), vec![name("x")]);
    assert_eq!(tokens_of("(* (* *) x"), vec![name("x")]);
    assert_eq!(tokens_of("(x)"), vec![Token::ParenL, name("x"), Token::ParenR]);
}

#[test]
fn unterminated_comment_is_a_fault() {
    let e = fault_of("1 (* never closed");
    assert_eq!(e.kind, LexErrorKind::UnterminatedComment);
    assert_eq!((e.position, e.line, e.column), (17, 1, 18));
    assert_eq!(fault_of("(*)").kind, LexErrorKind::UnterminatedComment);
    assert_eq!(fault_of("(* *").kind, LexErrorKind::UnterminatedComment);
    assert_eq!(fault_of("(*\n\n").line, 3);
}

#[test]
fn white_space_of_unicode_separates_tokens() {
    assert_eq!(
        tokens_of("a\u{a0}b\u{2003}c\u{3000}d\r\n\te"),
        vec![name("a"), name("b"), name("c"), name("d"), name("e")]
    );
    assert_eq!(tokens_of(""), vec![]);
    assert_eq!(tokens_of("  \n "), vec![]);
}

#[test]
fn latin_letters_form_words() {
    assert_eq!(tokens_of("Ärger ñu ßa"), vec![name("Ärger"), name("ñu"), name("ßa")]);
    assert_eq!(fault_of("a\u{f7}b").kind, LexErrorKind::UnexpectedChar);
}

#[test]
fn tokenize_may_be_called_again() {
    let mut lexer = Lexer::new("a\n$".to_string());
    let first = lexer.tokenize().expect_err("fault");
    let second = lexer.tokenize().expect_err("fault");
    assert_eq!(first, second);
    assert_eq!((first.line, first.column), (2, 1));
}

#[test]
fn classes_of_characters() {
    assert_eq!(classify_char('7'), Some(CharClass::Digit));
    assert_eq!(classify_char('q'), Some(CharClass::LowerAlpha));
    assert_eq!(classify_char('Q'), Some(CharClass::UpperAlpha));
    assert_eq!(classify_char('&'), Some(CharClass::Ampersand));
    assert_eq!(classify_char('^'), Some(CharClass::Caret));
    assert_eq!(classify_char(':'), Some(CharClass::PunctGroup));
    assert_eq!(classify_char('\u{2028}'), Some(CharClass::Whitespace));
    assert_eq!(classify_char('\u{d7}'), None);
    assert_eq!(classify_char('"'), None);
    assert_eq!(classify_char('\u{200b}'), None);
}

#[test]
fn classes_agree_with_the_white_space_of_the_standard_library() {
    let mut code: u32 = 0;
    while code <= 0x10ffff {
        if let Some(c) = char::from_u32(code) {
            let class = classify_char(c);
            assert_eq!(class == Some(CharClass::Whitespace), c.is_whitespace(), "U+{code:04X}");
        }
        code += 1;
    }
}

#[test]
fn identifier_characters() {
    for c in "azAZ09<>-+*/=!%^_&|\u{e9}".chars() {
        assert!(is_identifier_char(c), "{c}");
    }
    for c in "(); \n{}[].:\"#\u{d7}".chars() {
        assert!(!is_identifier_char(c), "{c}");
    }
}

#[test]
fn cells_of_the_table() {
    assert_eq!(next_state(State::Start, CharClass::Digit), Ok(Some(State::Digit)));
    assert_eq!(next_state(State::Start, CharClass::PunctGroup), Ok(None));
    assert_eq!(next_state(State::Start, CharClass::Whitespace), Ok(Some(State::Start)));
    assert_eq!(next_state(State::Digit, CharClass::LowerAlpha), Err(LexErrorKind::InvalidAfterDigit));
    assert_eq!(next_state(State::Digit, CharClass::Semicolon), Ok(None));
    assert_eq!(
        next_state(State::AssignOrIdentifier, CharClass::Minus),
        Ok(Some(State::FinishAssignOrIdentifier))
    );
    assert_eq!(
        next_state(State::ArrowOrIdentifierOrNegativeNumber, CharClass::Greater),
        Ok(Some(State::FinishArrowOrIdentifier))
    );
    assert_eq!(
        next_state(State::ArrowOrIdentifierOrNegativeNumber, CharClass::Digit),
        Ok(Some(State::Digit))
    );
    assert_eq!(next_state(State::Identifier, CharClass::Pipe), Ok(Some(State::Identifier)));
    assert_eq!(next_state(State::PipeOrIdentifier, CharClass::Pipe), Ok(Some(State::Identifier)));
    assert_eq!(next_state(State::Digit, CharClass::Pipe), Ok(None));
    assert_eq!(next_state(State::Identifier, CharClass::Whitespace), Ok(None));
    assert_eq!(next_state(State::FinishArrowOrIdentifier, CharClass::PunctGroup), Ok(None));
    assert_eq!(next_state(State::ParenLOrComment, CharClass::Star), Ok(Some(State::Comment)));
    assert_eq!(next_state(State::MayFinishComment, CharClass::RParen), Ok(Some(State::Start)));
    assert_eq!(next_state(State::Comment, CharClass::RParen), Ok(Some(State::Comment)));
    assert_eq!(next_state(State::ParenR, CharClass::Digit), Ok(None));
}

#[test]
fn states_by_index() {
    assert_eq!(State::from_index(0), Some(State::Start));
    assert_eq!(State::from_index(5), Some(State::Identifier));
    assert_eq!(State::from_index(11), Some(State::ParenR));
    assert_eq!(State::from_index(12), None);
    assert_eq!(State::from_index(State::COUNT), None);
    assert_eq!(CharClass::COUNT, 21);
}

fn spelling(token: &Token) -> String {
    match token {
        Token::IntegerLiteral(n) => n.to_string(),
        Token::Identifier(name) => name.clone(),
        Token::Decl => "decl".to_string(),
        Token::While => "while".to_string(),
        Token::Do => "do".to_string(),
        Token::Done => "done".to_string(),
        Token::Match => "match".to_string(),
        Token::With => "with".to_string(),
        Token::In => "in".to_string(),
        Token::Print => "print".to_string(),
        Token::Assign => "<-".to_string(),
        Token::Arrow => "->".to_string(),
        Token::Pipe => "|".to_string(),
        Token::Underscore => "_".to_string(),
        Token::Semicolon => ";".to_string(),
        Token::ParenL => "(".to_string(),
        Token::ParenR => ")".to_string(),
        Token::Plus => "+".to_string(),
        Token::Minus => "-".to_string(),
        Token::Star => "*".to_string(),
        Token::Slash => "/".to_string(),
        Token::Percent => "%".to_string(),
        Token::Equals => "=".to_string(),
        Token::NotEquals => "!=".to_string(),
        Token::Less => "<".to_string(),
        Token::Greater => ">".to_string(),
        Token::Exclam => "!".to_string(),
        Token::Ampersand => "&".to_string(),
    }
}

#[test]
fn the_tokens_spell_the_text() {
    let with_gaps = "decl x <- -5 in (* count up *)\n  while x do x <- + x 1 done ;\n\tmatch x                      with | 0 -> print x | _ -> (f x y) (* end *)";
    let without = "declx<--5inwhilexdox<-+x1done;matchxwith|0->printx|_->(fxy)";
    let spelled: String = tokens_of(with_gaps).iter().map(spelling).collect();
    assert_eq!(spelled, without);
    assert_eq!(tokens_of(with_gaps).len(), 31);
}

#[test]
fn texts_without_fault_are_sequences_of_tokens() {
    for text in ["", "x1y", "a|b", "((", "<-->", "1;2", "- 1", "x<-y", "(* { *)", "_ _1 __"] {
        let mut lexer = Lexer::new(text.to_string());
        assert!(lexer.tokenize().is_ok(), "{text}");
    }
}

#[test]
fn the_spellings_of_the_tokens_are_the_text_without_gaps() {
    for (text, without) in [
        ("a|b <-|c (* x *) ->d", "a|b<-|c->d"),
        ("- 5 -7 0 (**) 12", "-5-7012"),
        ("(f\t(g 1)\n(* ; *);)", "(f(g1);)"),
        ("-9223372036854775808 9223372036854775807", "-92233720368547758089223372036854775807"),
    ] {
        let spelled: String = tokens_of(text).iter().map(spelling).collect();
        assert_eq!(spelled, without, "{text}");
    }
}

#[test]
fn literals_with_leading_zeros_are_spelled_anew() {
    let spelled: String = tokens_of("007 -0 00").iter().map(spelling).collect();
    assert_eq!(spelled, "700");
}

#[test]
fn a_literal_out_of_range_adds_no_token() {
    let mut lexer = Lexer::new("1 2 99999999999999999999".to_string());
    assert_eq!(lexer.tokenize().unwrap_err().kind, LexErrorKind::IntegerOverflow);
    let mut lexer = Lexer::new("1 2".to_string());
    assert_eq!(lexer.tokenize().unwrap().len(), 2);
}
