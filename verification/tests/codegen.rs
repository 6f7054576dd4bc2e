use mlia::codegen::{CodeGen, ExecuteError};
use mlia::ir::{BinaryOp, Block, Function, Instr, Label, Operand, Predicate, Terminator, Width};
use mlia::lower::LowerError;
use mlia::machine::{run, Run, RunError};
use mlia::parser::{parse_program, Expr, ParseError, Pattern};

const FUEL: u64 = 10_000;

fn value_of(text: &str) -> Result<i64, ExecuteError> {
    let program = parse_program(text.to_string()).expect("the text is a program");
    CodeGen::new().execute_program(&program, FUEL)
}

fn code_of(text: &str) -> Result<Function, LowerError> {
    let program = parse_program(text.to_string()).expect("the text is a program");
    CodeGen::new().compile_program(&program)
}

fn printed_by(text: &str) -> Run {
    run(&code_of(text).expect("the program has code"), FUEL).expect("the run returns")
}

#[test]
fn test_simple_number() {
    let mut codegen = CodeGen::new();

    let expr = Expr::Number(42);
    let result = codegen.execute_program(&expr, FUEL).unwrap();
    assert_eq!(result, 42);
}

#[test]
fn test_variable_declaration() {
    let mut codegen = CodeGen::new();

    // decl x <- 5 in x
    let expr = Expr::Decl(
        "x".to_string(),
        vec![],
        Box::new(Expr::Number(5)),
        Box::new(Expr::Ident("x".to_string())),
    );

    let result = codegen.execute_program(&expr, FUEL).unwrap();
    assert_eq!(result, 5);
}

#[test]
fn test_sequence() {
    let mut codegen = CodeGen::new();

    // 1; 2
    let expr = Expr::Sequence(Box::new(Expr::Number(1)), Box::new(Expr::Number(2)));

    let result = codegen.execute_program(&expr, FUEL).unwrap();
    assert_eq!(result, 2);
}

#[test]
fn test_addition() {
    let mut codegen = CodeGen::new();

    let expr = Expr::Call("+".to_string(), vec![Expr::Number(5), Expr::Number(3)]);

    let result = codegen.execute_program(&expr, FUEL).unwrap();
    assert_eq!(result, 8, "5 + 3 should equal 8");
}

#[test]
fn test_subtraction() {
    let mut codegen = CodeGen::new();

    let expr = Expr::Call("-".to_string(), vec![Expr::Number(10), Expr::Number(4)]);

    let result = codegen.execute_program(&expr, FUEL).unwrap();
    assert_eq!(result, 6, "10 - 4 should equal 6");
}

#[test]
fn test_multiplication() {
    let mut codegen = CodeGen::new();

    let expr = Expr::Call("*".to_string(), vec![Expr::Number(6), Expr::Number(7)]);

    let result = codegen.execute_program(&expr, FUEL).unwrap();
    assert_eq!(result, 42, "6 * 7 should equal 42");
}

#[test]
fn test_division() {
    let mut codegen = CodeGen::new();

    let expr = Expr::Call("/".to_string(), vec![Expr::Number(17), Expr::Number(5)]);

    let result = codegen.execute_program(&expr, FUEL).unwrap();
    assert_eq!(result, 3, "17 / 5 should equal 3 (integer division)");
}

#[test]
fn test_modulo() {
    let mut codegen = CodeGen::new();

    let expr = Expr::Call("%".to_string(), vec![Expr::Number(17), Expr::Number(5)]);

    let result = codegen.execute_program(&expr, FUEL).unwrap();
    assert_eq!(result, 2, "17 % 5 should equal 2");
}

#[test]
fn test_negative_numbers() {
    let mut codegen = CodeGen::new();

    let expr = Expr::Call("+".to_string(), vec![Expr::Number(-5), Expr::Number(3)]);

    let result = codegen.execute_program(&expr, FUEL).unwrap();
    assert_eq!(result, -2, "-5 + 3 should equal -2");
}

#[test]
fn test_less_than_true() {
    let mut codegen = CodeGen::new();

    let expr = Expr::Call("<".to_string(), vec![Expr::Number(5), Expr::Number(10)]);

    let result = codegen.execute_program(&expr, FUEL).unwrap();
    assert_eq!(result, 1, "5 < 10 should be true (1)");
}

#[test]
fn test_less_than_false() {
    let mut codegen = CodeGen::new();

    let expr = Expr::Call("<".to_string(), vec![Expr::Number(10), Expr::Number(5)]);

    let result = codegen.execute_program(&expr, FUEL).unwrap();
    assert_eq!(result, 0, "10 < 5 should be false (0)");
}

#[test]
fn test_greater_than() {
    let mut codegen = CodeGen::new();

    let expr = Expr::Call(">".to_string(), vec![Expr::Number(10), Expr::Number(5)]);

    let result = codegen.execute_program(&expr, FUEL).unwrap();
    assert_eq!(result, 1, "10 > 5 should be true (1)");
}

#[test]
fn test_equality_true() {
    let mut codegen = CodeGen::new();

    let expr = Expr::Call("=".to_string(), vec![Expr::Number(7), Expr::Number(7)]);

    let result = codegen.execute_program(&expr, FUEL).unwrap();
    assert_eq!(result, 1, "7 = 7 should be true (1)");
}

#[test]
fn test_equality_false() {
    let mut codegen = CodeGen::new();

    let expr = Expr::Call("=".to_string(), vec![Expr::Number(5), Expr::Number(10)]);

    let result = codegen.execute_program(&expr, FUEL).unwrap();
    assert_eq!(result, 0, "5 = 10 should be false (0)");
}

#[test]
fn test_not_equal() {
    let mut codegen = CodeGen::new();

    let expr = Expr::Call("!=".to_string(), vec![Expr::Number(5), Expr::Number(10)]);

    let result = codegen.execute_program(&expr, FUEL).unwrap();
    assert_eq!(result, 1, "5 != 10 should be true (1)");
}

#[test]
fn test_while_loop_countdown() {
    let mut codegen = CodeGen::new();

    // decl x <- 3 in while x do x <- - x 1 done
    let expr = Expr::Decl(
        "x".to_string(),
        vec![],
        Box::new(Expr::Number(3)),
        Box::new(Expr::While(
            Box::new(Expr::Ident("x".to_string())),
            Box::new(Expr::Assign(
                "x".to_string(),
                Box::new(Expr::Call(
                    "-".to_string(),
                    vec![Expr::Ident("x".to_string()), Expr::Number(1)],
                )),
            )),
        )),
    );

    let result = codegen.execute_program(&expr, FUEL).unwrap();
    assert_eq!(result, 0, "While loop should return 0 when condition becomes false");
}

#[test]
fn test_while_loop_zero_iterations() {
    let mut codegen = CodeGen::new();

    // while 0 do 42 done
    let expr = Expr::While(Box::new(Expr::Number(0)), Box::new(Expr::Number(42)));

    let result = codegen.execute_program(&expr, FUEL).unwrap();
    assert_eq!(result, 0, "While loop with false condition should return 0 immediately");
}

#[test]
fn test_while_loop_accumulator() {
    let mut codegen = CodeGen::new();

    // decl sum <- 0 in decl i <- 5 in
    // while i do (sum <- + sum i; i <- - i 1) done; sum
    let expr = Expr::Decl(
        "sum".to_string(),
        vec![],
        Box::new(Expr::Number(0)),
        Box::new(Expr::Decl(
            "i".to_string(),
            vec![],
            Box::new(Expr::Number(5)),
            Box::new(Expr::Sequence(
                Box::new(Expr::While(
                    Box::new(Expr::Ident("i".to_string())),
                    Box::new(Expr::Sequence(
                        Box::new(Expr::Assign(
                            "sum".to_string(),
                            Box::new(Expr::Call(
                                "+".to_string(),
                                vec![Expr::Ident("sum".to_string()), Expr::Ident("i".to_string())],
                            )),
                        )),
                        Box::new(Expr::Assign(
                            "i".to_string(),
                            Box::new(Expr::Call(
                                "-".to_string(),
                                vec![Expr::Ident("i".to_string()), Expr::Number(1)],
                            )),
                        )),
                    )),
                )),
                Box::new(Expr::Ident("sum".to_string())),
            )),
        )),
    );

    let result = codegen.execute_program(&expr, FUEL).unwrap();
    assert_eq!(result, 15, "Sum of 5+4+3+2+1 should be 15");
}

#[test]
fn codegen_test_nested_while_loops() {
    let mut codegen = CodeGen::new();

    // decl outer <- 2 in while outer do (
    //   decl inner <- 2 in while inner do inner <- - inner 1 done;
    //   outer <- - outer 1
    // ) done
    let expr = Expr::Decl(
        "outer".to_string(),
        vec![],
        Box::new(Expr::Number(2)),
        Box::new(Expr::While(
            Box::new(Expr::Ident("outer".to_string())),
            Box::new(Expr::Sequence(
                Box::new(Expr::Decl(
                    "inner".to_string(),
                    vec![],
                    Box::new(Expr::Number(2)),
                    Box::new(Expr::While(
                        Box::new(Expr::Ident("inner".to_string())),
                        Box::new(Expr::Assign(
                            "inner".to_string(),
                            Box::new(Expr::Call(
                                "-".to_string(),
                                vec![Expr::Ident("inner".to_string()), Expr::Number(1)],
                            )),
                        )),
                    )),
                )),
                Box::new(Expr::Assign(
                    "outer".to_string(),
                    Box::new(Expr::Call(
                        "-".to_string(),
                        vec![Expr::Ident("outer".to_string()), Expr::Number(1)],
                    )),
                )),
            )),
        )),
    );

    let result = codegen.execute_program(&expr, FUEL).unwrap();
    assert_eq!(result, 0, "Nested while loops should complete successfully");
}

#[test]
fn test_match_first_pattern() {
    let mut codegen = CodeGen::new();

    // match 1 with | 1 -> 100 | 2 -> 200 | _ -> 300
    let expr = Expr::Match(
        Box::new(Expr::Number(1)),
        vec![
            (Pattern::Literal(1), Expr::Number(100)),
            (Pattern::Literal(2), Expr::Number(200)),
            (Pattern::Wildcard, Expr::Number(300)),
        ],
    );

    let result = codegen.execute_program(&expr, FUEL).unwrap();
    assert_eq!(result, 100, "match 1 should return 100");
}

#[test]
fn test_match_second_pattern() {
    let mut codegen = CodeGen::new();

    let expr = Expr::Match(
        Box::new(Expr::Number(2)),
        vec![
            (Pattern::Literal(1), Expr::Number(100)),
            (Pattern::Literal(2), Expr::Number(200)),
            (Pattern::Wildcard, Expr::Number(300)),
        ],
    );

    let result = codegen.execute_program(&expr, FUEL).unwrap();
    assert_eq!(result, 200, "match 2 should return 200");
}

#[test]
fn test_match_wildcard() {
    let mut codegen = CodeGen::new();

    let expr = Expr::Match(
        Box::new(Expr::Number(5)),
        vec![
            (Pattern::Literal(1), Expr::Number(100)),
            (Pattern::Literal(2), Expr::Number(200)),
            (Pattern::Wildcard, Expr::Number(300)),
        ],
    );

    let result = codegen.execute_program(&expr, FUEL).unwrap();
    assert_eq!(result, 300, "match 5 should return 300 (wildcard)");
}

#[test]
fn test_match_computed_results() {
    let mut codegen = CodeGen::new();

    // match 1 with | 1 -> (+ 10 20) | _ -> 0
    let expr = Expr::Match(
        Box::new(Expr::Number(1)),
        vec![
            (
                Pattern::Literal(1),
                Expr::Call("+".to_string(), vec![Expr::Number(10), Expr::Number(20)]),
            ),
            (Pattern::Wildcard, Expr::Number(0)),
        ],
    );

    let result = codegen.execute_program(&expr, FUEL).unwrap();
    assert_eq!(result, 30, "match 1 should compute 10 + 20 = 30");
}

#[test]
fn test_match_as_subexpression() {
    let mut codegen = CodeGen::new();

    // + (match 2 with | 1 -> 10 | 2 -> 20 | _ -> 30) 5
    let match_expr = Expr::Match(
        Box::new(Expr::Number(2)),
        vec![
            (Pattern::Literal(1), Expr::Number(10)),
            (Pattern::Literal(2), Expr::Number(20)),
            (Pattern::Wildcard, Expr::Number(30)),
        ],
    );

    let expr = Expr::Call("+".to_string(), vec![match_expr, Expr::Number(5)]);

    let result = codegen.execute_program(&expr, FUEL).unwrap();
    assert_eq!(result, 25, "20 + 5 should equal 25");
}

#[test]
fn test_match_with_variable() {
    let mut codegen = CodeGen::new();

    let expr = Expr::Decl(
        "x".to_string(),
        vec![],
        Box::new(Expr::Number(2)),
        Box::new(Expr::Match(
            Box::new(Expr::Ident("x".to_string())),
            vec![
                (Pattern::Literal(1), Expr::Number(100)),
                (Pattern::Literal(2), Expr::Number(200)),
                (Pattern::Wildcard, Expr::Number(300)),
            ],
        )),
    );

    let result = codegen.execute_program(&expr, FUEL).unwrap();
    assert_eq!(result, 200, "match x (where x=2) should return 200");
}

#[test]
fn test_match_explicit_patterns() {
    let mut codegen = CodeGen::new();

    // match 0 with | 0 -> 42 | _ -> 0
    let expr = Expr::Match(
        Box::new(Expr::Number(0)),
        vec![(Pattern::Literal(0), Expr::Number(42)), (Pattern::Wildcard, Expr::Number(0))],
    );

    let result = codegen.execute_program(&expr, FUEL).unwrap();
    assert_eq!(result, 42, "match 0 should return 42");
}

#[test]
fn programs_from_text() {
    assert_eq!(value_of("42"), Ok(42));
    assert_eq!(value_of("decl x <- 5 in x"), Ok(5));
    assert_eq!(value_of("1 ; 2"), Ok(2));
    assert_eq!(
        value_of(
            "decl sum <- 0 in decl i <- 5 in while i do (sum <- + sum i ; i <- - i 1) done ; sum"
        ),
        Ok(15)
    );
    assert_eq!(value_of("+ (match 2 with | 1 -> 10 | 2 -> 20 | _ -> 30) 5"), Ok(25));
    assert_eq!(value_of("match 5 with | 1 -> 100 | 2 -> 200 | _ -> 300"), Ok(300));
}

#[test]
fn undefined_variable_is_a_resolution_fault() {
    assert_eq!(
        value_of("decl x <- 1 in y"),
        Err(ExecuteError::Lower(LowerError::UndefinedVariable))
    );
    assert_eq!(value_of("x"), Err(ExecuteError::Lower(LowerError::UndefinedVariable)));
    assert_eq!(
        value_of("(decl x <- 1 in x) ; x"),
        Err(ExecuteError::Lower(LowerError::UndefinedVariable))
    );
    assert_eq!(
        value_of("decl x <- x in x"),
        Err(ExecuteError::Lower(LowerError::UndefinedVariable))
    );
}

#[test]
fn assignment_to_undefined_variable_is_a_resolution_fault() {
    assert_eq!(value_of("x <- 1"), Err(ExecuteError::Lower(LowerError::AssignToUndefined)));
    assert_eq!(
        value_of("decl x <- 1 in y <- x"),
        Err(ExecuteError::Lower(LowerError::AssignToUndefined))
    );
    assert_eq!(value_of("x <- y"), Err(ExecuteError::Lower(LowerError::UndefinedVariable)));
}

#[test]
fn unknown_call_is_a_resolution_fault() {
    assert_eq!(value_of("(f 1)"), Err(ExecuteError::Lower(LowerError::UnknownCall)));
    let two = Expr::Call("print".to_string(), vec![Expr::Number(1), Expr::Number(2)]);
    assert_eq!(CodeGen::new().compile_program(&two), Err(LowerError::UnknownCall));
    assert_eq!(value_of("| 1 2"), Err(ExecuteError::Lower(LowerError::UnknownCall)));
    let not = Expr::Call("!".to_string(), vec![Expr::Number(1)]);
    assert_eq!(CodeGen::new().compile_program(&not), Err(LowerError::UnknownCall));
    let three = Expr::Call(
        "+".to_string(),
        vec![Expr::Number(1), Expr::Number(2), Expr::Number(3)],
    );
    assert_eq!(CodeGen::new().compile_program(&three), Err(LowerError::UnknownCall));
    let none = Expr::Call("+".to_string(), vec![]);
    assert_eq!(CodeGen::new().compile_program(&none), Err(LowerError::UnknownCall));
}

#[test]
fn match_without_wildcard_is_an_exhaustiveness_fault() {
    assert_eq!(
        value_of("match 1 with | 1 -> 10"),
        Err(ExecuteError::Lower(LowerError::NonExhaustiveMatch))
    );
    assert_eq!(
        value_of("match y with | 1 -> 10 | 2 -> z"),
        Err(ExecuteError::Lower(LowerError::NonExhaustiveMatch))
    );
    let empty = Expr::Match(Box::new(Expr::Number(1)), vec![]);
    assert_eq!(CodeGen::new().compile_program(&empty), Err(LowerError::NonExhaustiveMatch));
}

#[test]
fn declaration_with_parameters_is_refused() {
    assert_eq!(
        value_of("decl f a <- 1 in 2"),
        Err(ExecuteError::Lower(LowerError::FunctionsNotSupported))
    );
    assert_eq!(
        value_of("decl f a <- y in 2"),
        Err(ExecuteError::Lower(LowerError::FunctionsNotSupported))
    );
}

#[test]
fn the_first_fault_in_the_order_of_evaluation_is_reported() {
    assert_eq!(
        value_of("+ x (match 1 with | 1 -> 2)"),
        Err(ExecuteError::Lower(LowerError::UndefinedVariable))
    );
    assert_eq!(
        value_of("+ (match 1 with | 1 -> 2) x"),
        Err(ExecuteError::Lower(LowerError::NonExhaustiveMatch))
    );
    assert_eq!(
        value_of("y <- (f 1)"),
        Err(ExecuteError::Lower(LowerError::UnknownCall))
    );
}

#[test]
fn inner_declaration_shadows_and_outer_returns() {
    assert_eq!(value_of("decl x <- 1 in decl x <- 2 in x"), Ok(2));
    assert_eq!(value_of("decl x <- 1 in (decl x <- 2 in x) ; x"), Ok(1));
    assert_eq!(value_of("decl x <- 1 in (decl x <- 2 in x <- 7) ; x"), Ok(1));
    assert_eq!(value_of("decl x <- 1 in (decl y <- 2 in x <- 7) ; x"), Ok(7));
    assert_eq!(value_of("decl x <- 1 in decl x <- + x 10 in x"), Ok(11));
}

#[test]
fn first_matching_arm_wins() {
    assert_eq!(value_of("match 1 with | 1 -> 10 | 1 -> 20 | _ -> 30"), Ok(10));
    assert_eq!(value_of("match 7 with | _ -> 10 | 7 -> 20"), Ok(10));
    assert_eq!(value_of("match 7 with | _ -> 10 | _ -> 20"), Ok(10));
    assert_eq!(value_of("match -3 with | 3 -> 1 | -3 -> 2 | _ -> 3"), Ok(2));
    assert_eq!(value_of("match 7 with | _ -> 10 | 7 -> x"), Ok(10));
}

#[test]
fn comparisons_are_zero_or_one() {
    for a in [-2i64, 0, 3, i64::MAX, i64::MIN] {
        for b in [-2i64, 0, 3, i64::MAX, i64::MIN] {
            for (head, truth) in [("<", a < b), (">", a > b), ("=", a == b), ("!=", a != b)] {
                let e = Expr::Call(head.to_string(), vec![Expr::Number(a), Expr::Number(b)]);
                let v = CodeGen::new().execute_program(&e, FUEL).unwrap();
                assert_eq!(v, if truth { 1 } else { 0 }, "{head} {a} {b}");
            }
        }
    }
}

#[test]
fn every_loop_has_the_value_zero() {
    assert_eq!(value_of("while 0 do 1 done"), Ok(0));
    assert_eq!(value_of("decl n <- 4 in while n do n <- - n 1 done"), Ok(0));
    assert_eq!(value_of("+ 5 while 0 do 9 done"), Ok(5));
    assert_eq!(
        code_of("while 1 do 2 done").unwrap().blocks[3].terminator,
        Some(Terminator::Return(Operand::Const(0)))
    );
}

#[test]
fn arithmetic_wraps_and_division_truncates() {
    assert_eq!(value_of("+ 9223372036854775807 1"), Ok(i64::MIN));
    assert_eq!(value_of("- -9223372036854775808 1"), Ok(i64::MAX));
    assert_eq!(value_of("* 4611686018427387904 2"), Ok(i64::MIN));
    assert_eq!(value_of("/ -17 5"), Ok(-3));
    assert_eq!(value_of("/ 17 -5"), Ok(-3));
    assert_eq!(value_of("% -17 5"), Ok(-2));
    assert_eq!(value_of("% 17 -5"), Ok(2));
    assert_eq!(value_of("/ 0 5"), Ok(0));
}

#[test]
fn division_without_meaning_is_undefined() {
    assert_eq!(value_of("/ 1 0"), Err(ExecuteError::Run(RunError::Undefined)));
    assert_eq!(value_of("% 1 0"), Err(ExecuteError::Run(RunError::Undefined)));
    assert_eq!(
        value_of("/ -9223372036854775808 -1"),
        Err(ExecuteError::Run(RunError::Undefined))
    );
    assert_eq!(
        value_of("% -9223372036854775808 -1"),
        Err(ExecuteError::Run(RunError::Undefined))
    );
}

#[test]
fn a_loop_without_end_runs_out_of_fuel() {
    assert_eq!(value_of("while 1 do 0 done"), Err(ExecuteError::Run(RunError::OutOfFuel)));
    let forever = Expr::While(Box::new(Expr::Number(1)), Box::new(Expr::Number(0)));
    assert_eq!(
        CodeGen::new().execute_program(&forever, 0),
        Err(ExecuteError::Run(RunError::OutOfFuel))
    );
    let once = Expr::While(Box::new(Expr::Number(0)), Box::new(Expr::Number(0)));
    assert_eq!(
        CodeGen::new().execute_program(&once, 1),
        Err(ExecuteError::Run(RunError::OutOfFuel))
    );
    assert_eq!(CodeGen::new().execute_program(&once, 2), Ok(0));
}

#[test]
fn print_gives_its_argument_and_prints_it() {
    assert_eq!(value_of("print 7"), Ok(7));
    let done = printed_by("decl n <- 3 in while n do (print n ; n <- - n 1) done ; print 99");
    assert_eq!(done, Run { value: 99, printed: vec![3, 2, 1, 99] });
    assert_eq!(printed_by("+ (print 1) (print 2)").printed, vec![1, 2]);
}

#[test]
fn assignment_gives_the_stored_value() {
    assert_eq!(value_of("decl x <- 1 in x <- 5"), Ok(5));
    assert_eq!(value_of("decl x <- 1 in decl y <- 2 in x <- y <- 9 ; + x y"), Ok(18));
}

#[test]
fn code_of_a_number() {
    let f = code_of("42").unwrap();
    assert_eq!(
        f,
        Function {
            slots: vec![],
            registers: vec![],
            blocks: vec![Block {
                label: Label::Entry,
                instrs: vec![],
                terminator: Some(Terminator::Return(Operand::Const(42))),
            }],
        }
    );
}

#[test]
fn code_of_a_declaration_and_a_comparison() {
    let f = code_of("decl x <- 5 in < x 7").unwrap();
    assert_eq!(f.slots, vec!["x".to_string()]);
    assert_eq!(f.registers, vec![Width::Word, Width::Bit, Width::Word]);
    assert_eq!(
        f.blocks,
        vec![Block {
            label: Label::Entry,
            instrs: vec![
                Instr::Store { slot: 0, value: Operand::Const(5) },
                Instr::Load { dest: 0, slot: 0 },
                Instr::Compare {
                    dest: 1,
                    predicate: Predicate::SLT,
                    lhs: Operand::Reg(0),
                    rhs: Operand::Const(7),
                },
                Instr::Extend { dest: 2, source: 1 },
            ],
            terminator: Some(Terminator::Return(Operand::Reg(2))),
        }]
    );
}

#[test]
fn code_of_a_loop() {
    let f = code_of("decl n <- 2 in while n do n <- - n 1 done").unwrap();
    let labels: Vec<Label> = f.blocks.iter().map(|b| b.label).collect();
    assert_eq!(labels, vec![Label::Entry, Label::LoopHeader, Label::LoopBody, Label::LoopExit]);
    assert_eq!(f.blocks[0].terminator, Some(Terminator::Jump(1)));
    assert_eq!(
        f.blocks[1].instrs,
        vec![
            Instr::Load { dest: 0, slot: 0 },
            Instr::Compare {
                dest: 1,
                predicate: Predicate::NE,
                lhs: Operand::Reg(0),
                rhs: Operand::Const(0),
            },
        ]
    );
    assert_eq!(
        f.blocks[1].terminator,
        Some(Terminator::Branch { cond: 1, then_block: 2, else_block: 3 })
    );
    assert_eq!(
        f.blocks[2].instrs,
        vec![
            Instr::Load { dest: 2, slot: 0 },
            Instr::Binary {
                dest: 3,
                op: BinaryOp::Sub,
                lhs: Operand::Reg(2),
                rhs: Operand::Const(1),
            },
            Instr::Store { slot: 0, value: Operand::Reg(3) },
        ]
    );
    assert_eq!(f.blocks[2].terminator, Some(Terminator::Jump(1)));
    assert_eq!(f.blocks[3].instrs, vec![]);
    assert_eq!(f.blocks[3].terminator, Some(Terminator::Return(Operand::Const(0))));
}

#[test]
fn code_of_a_match() {
    let f = code_of("match 2 with | 1 -> 10 | _ -> 30 | 3 -> 40").unwrap();
    let labels: Vec<Label> = f.blocks.iter().map(|b| b.label).collect();
    assert_eq!(
        labels,
        vec![
            Label::Entry,
            Label::MatchMerge,
            Label::MatchCheck(0),
            Label::MatchArm(0),
            Label::MatchCheck(1),
        ]
    );
    assert_eq!(f.slots, vec!["match_result".to_string()]);
    assert_eq!(f.blocks[0].terminator, Some(Terminator::Jump(2)));
    assert_eq!(
        f.blocks[2].instrs,
        vec![Instr::Compare {
            dest: 0,
            predicate: Predicate::EQ,
            lhs: Operand::Const(2),
            rhs: Operand::Const(1),
        }]
    );
    assert_eq!(
        f.blocks[2].terminator,
        Some(Terminator::Branch { cond: 0, then_block: 3, else_block: 4 })
    );
    assert_eq!(f.blocks[3].instrs, vec![Instr::Store { slot: 0, value: Operand::Const(10) }]);
    assert_eq!(f.blocks[3].terminator, Some(Terminator::Jump(1)));
    assert_eq!(f.blocks[4].instrs, vec![Instr::Store { slot: 0, value: Operand::Const(30) }]);
    assert_eq!(f.blocks[4].terminator, Some(Terminator::Jump(1)));
    assert_eq!(f.blocks[1].instrs, vec![Instr::Load { dest: 1, slot: 0 }]);
    assert_eq!(f.blocks[1].terminator, Some(Terminator::Return(Operand::Reg(1))));
}

#[test]
fn the_generator_can_be_used_again() {
    let mut codegen = CodeGen::new();
    let first = Expr::Decl(
        "x".to_string(),
        vec![],
        Box::new(Expr::Number(1)),
        Box::new(Expr::Ident("y".to_string())),
    );
    assert_eq!(codegen.compile_program(&first), Err(LowerError::UndefinedVariable));
    let second = Expr::Ident("x".to_string());
    assert_eq!(codegen.compile_program(&second), Err(LowerError::UndefinedVariable));
    assert_eq!(codegen.execute_program(&Expr::Number(3), FUEL), Ok(3));
    assert_eq!(codegen.execute_program(&Expr::Number(4), FUEL), Ok(4));
}

#[test]
fn the_machine_refuses_code_without_meaning() {
    let no_blocks = Function { slots: vec![], registers: vec![], blocks: vec![] };
    assert_eq!(run(&no_blocks, FUEL), Err(RunError::Undefined));
    let open = Function {
        slots: vec![],
        registers: vec![],
        blocks: vec![Block { label: Label::Entry, instrs: vec![], terminator: None }],
    };
    assert_eq!(run(&open, FUEL), Err(RunError::Undefined));
    let reads_nothing = Function {
        slots: vec!["x".to_string()],
        registers: vec![Width::Word],
        blocks: vec![Block {
            label: Label::Entry,
            instrs: vec![Instr::Load { dest: 0, slot: 0 }],
            terminator: Some(Terminator::Return(Operand::Reg(0))),
        }],
    };
    assert_eq!(run(&reads_nothing, FUEL), Err(RunError::Undefined));
    let no_such_register = Function {
        slots: vec![],
        registers: vec![],
        blocks: vec![Block {
            label: Label::Entry,
            instrs: vec![],
            terminator: Some(Terminator::Return(Operand::Reg(0))),
        }],
    };
    assert_eq!(run(&no_such_register, FUEL), Err(RunError::Undefined));
    let no_such_block = Function {
        slots: vec![],
        registers: vec![],
        blocks: vec![Block {
            label: Label::Entry,
            instrs: vec![],
            terminator: Some(Terminator::Jump(5)),
        }],
    };
    assert_eq!(run(&no_such_block, FUEL), Err(RunError::Undefined));
}

#[test]
fn a_text_with_a_lexical_fault_has_no_program() {
    assert!(matches!(parse_program("10a".to_string()), Err(ParseError::Lexical(_))));
}

fn has_register(f: &Function, r: usize, width: Width) -> bool {
    f.registers.get(r) == Some(&width)
}

fn has_word(f: &Function, operand: Operand) -> bool {
    match operand {
        Operand::Const(_) => true,
        Operand::Reg(r) => has_register(f, r, Width::Word),
    }
}

fn instr_ok(f: &Function, instr: Instr) -> bool {
    match instr {
        Instr::Load { dest, slot } => has_register(f, dest, Width::Word) && slot < f.slots.len(),
        Instr::Store { slot, value } => slot < f.slots.len() && has_word(f, value),
        Instr::Binary { dest, lhs, rhs, .. } => {
            has_register(f, dest, Width::Word) && has_word(f, lhs) && has_word(f, rhs)
        }
        Instr::Compare { dest, lhs, rhs, .. } => {
            has_register(f, dest, Width::Bit) && has_word(f, lhs) && has_word(f, rhs)
        }
        Instr::Extend { dest, source } => {
            has_register(f, dest, Width::Word) && has_register(f, source, Width::Bit)
        }
        Instr::Print { value } => has_word(f, value),
    }
}

fn terminator_ok(f: &Function, terminator: Option<Terminator>) -> bool {
    match terminator {
        None => false,
        Some(Terminator::Jump(target)) => target < f.blocks.len(),
        Some(Terminator::Branch { cond, then_block, else_block }) => {
            has_register(f, cond, Width::Bit)
                && then_block < f.blocks.len()
                && else_block < f.blocks.len()
        }
        Some(Terminator::Return(value)) => has_word(f, value),
    }
}

fn well_formed(f: &Function) -> bool {
    !f.blocks.is_empty()
        && f.blocks.iter().all(|b| {
            b.instrs.iter().all(|i| instr_ok(f, *i)) && terminator_ok(f, b.terminator)
        })
}

#[test]
fn the_code_of_programs_is_well_formed() {
    for text in [
        "42",
        "decl x <- 5 in x",
        "decl sum <- 0 in decl i <- 5 in while i do (sum <- + sum i ; i <- - i 1) done ; sum",
        "+ (match 2 with | 1 -> 10 | 2 -> 20 | _ -> 30) 5",
        "match (match 1 with | _ -> 2) with | 2 -> while 0 do 1 done | _ -> print 3",
        "while < 1 2 do match 1 with | 1 -> 2 | _ -> 3 done",
        "decl x <- 1 in (decl x <- 2 in x <- 7) ; x",
        "match 7 with | _ -> 10 | 7 -> 20",
    ] {
        let f = code_of(text).expect("the program has code");
        assert!(well_formed(&f), "{text}: {f:?}");
    }
}

#[test]
fn every_register_is_written_once() {
    let f = code_of(
        "decl n <- 3 in while n do (print (match n with | 1 -> = n 1 | _ -> * n 2) ; n <- - n 1) done",
    )
    .unwrap();
    let mut written = vec![0usize; f.registers.len()];
    for block in &f.blocks {
        for instr in &block.instrs {
            match *instr {
                Instr::Load { dest, .. }
                | Instr::Binary { dest, .. }
                | Instr::Compare { dest, .. }
                | Instr::Extend { dest, .. } => written[dest] += 1,
                Instr::Store { .. } | Instr::Print { .. } => {}
            }
        }
    }
    assert!(written.iter().all(|n| *n == 1), "{written:?}");
}

#[test]
fn a_fault_leaves_the_generator_fit_for_the_next_program() {
    let mut codegen = CodeGen::new();
    let no_wildcard = Expr::Decl(
        "x".to_string(),
        vec![],
        Box::new(Expr::Number(1)),
        Box::new(Expr::Match(
            Box::new(Expr::Ident("x".to_string())),
            vec![(Pattern::Literal(1), Expr::Number(2))],
        )),
    );
    assert_eq!(codegen.compile_program(&no_wildcard), Err(LowerError::NonExhaustiveMatch));
    assert_eq!(
        codegen.compile_program(&Expr::Ident("x".to_string())),
        Err(LowerError::UndefinedVariable)
    );
    let assign = Expr::Assign("y".to_string(), Box::new(Expr::Number(1)));
    assert_eq!(codegen.compile_program(&assign), Err(LowerError::AssignToUndefined));
    assert_eq!(
        codegen.compile_program(&Expr::Ident("y".to_string())),
        Err(LowerError::UndefinedVariable)
    );
    assert_eq!(codegen.execute_program(&Expr::Number(7), FUEL), Ok(7));
}
