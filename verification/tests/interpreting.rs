use roxty::chunk::Chunk;
use roxty::compiler::{DiagKind, DiagLocation, Diagnostic};
use roxty::vm::{InterpretResultError, VM};

fn run_src(src: &str) -> (Result<u64, InterpretResultError>, Vec<Diagnostic>) {
    let mut vm = VM::new();
    vm.init_vm();
    let mut chunk = Chunk::init_chunk();
    vm.interpret(src.as_bytes().to_vec(), &mut chunk)
}

fn eval_ok(src: &str) -> f64 {
    let (r, diags) = run_src(src);
    match r {
        Ok(bits) => f64::from_bits(bits),
        Err(e) => panic!("{:?} failed: {:?} {:?}", src, e, diags),
    }
}

fn diag_kinds(src: &str) -> (Result<u64, InterpretResultError>, Vec<DiagKind>) {
    let (r, diags) = run_src(src);
    (r, diags.iter().map(|d| d.kind).collect())
}

#[test]
fn multiplication_binds_tighter_than_addition() {
    assert_eq!(eval_ok("1+2*3"), 7.0);
}

#[test]
fn grouping_overrides_precedence() {
    assert_eq!(eval_ok("(1+2)*3"), 9.0);
}

#[test]
fn unary_minus_on_both_operands() {
    assert_eq!(eval_ok("-2*-3"), 6.0);
}

#[test]
fn division_is_left_associative() {
    assert_eq!(eval_ok("8/4/2"), 1.0);
}

#[test]
fn subtraction_is_left_associative() {
    assert_eq!(eval_ok("2-3-4"), -5.0);
}

#[test]
fn mixed_expression_evaluates() {
    assert_eq!(eval_ok("(-1 + 2) * 3 - 4"), -1.0);
}

#[test]
fn single_literal_evaluates_to_itself() {
    assert_eq!(eval_ok("42"), 42.0);
}

#[test]
fn fractional_literals_evaluate_exactly() {
    assert_eq!(eval_ok("1.5+2.25"), 3.75);
}

#[test]
fn double_negation_cancels() {
    assert_eq!(eval_ok("--2"), 2.0);
}

#[test]
fn division_by_zero_is_infinite() {
    assert!(eval_ok("1/0").is_infinite());
}

#[test]
fn zero_over_zero_is_nan() {
    assert!(eval_ok("0/0").is_nan());
}

#[test]
fn agreement_with_direct_evaluation() {
    assert_eq!(eval_ok("2*3+4*5"), 2.0 * 3.0 + 4.0 * 5.0);
    assert_eq!(eval_ok("10-2*3"), 10.0 - 2.0 * 3.0);
    assert_eq!(eval_ok("100/8"), 100.0 / 8.0);
    assert_eq!(eval_ok("7/2"), 7.0 / 2.0);
    assert_eq!(eval_ok("1.25*4-0.5"), 1.25 * 4.0 - 0.5);
}

#[test]
fn comments_and_whitespace_are_skipped() {
    assert_eq!(eval_ok("1 + // nothing to see\n 2"), 3.0);
    assert_eq!(eval_ok(" \t\r\n 5 \n"), 5.0);
}

#[test]
fn dangling_operator_reports_expected_expression() {
    let (r, kinds) = diag_kinds("1 +");
    assert_eq!(r, Err(InterpretResultError::INTERPRET_COMPILE_ERROR));
    assert!(kinds.contains(&DiagKind::ExpectedExpression));
}

#[test]
fn unterminated_string_reports_its_line() {
    let (r, diags) = run_src("\n\n\"abc");
    assert_eq!(r, Err(InterpretResultError::INTERPRET_COMPILE_ERROR));
    assert_eq!(diags[0].kind, DiagKind::UnterminatedString);
    assert_eq!(diags[0].line, 3);
}

#[test]
fn unexpected_character_reports() {
    let (r, kinds) = diag_kinds("1 + @");
    assert_eq!(r, Err(InterpretResultError::INTERPRET_COMPILE_ERROR));
    assert!(kinds.contains(&DiagKind::UnexpectedCharacter));
}

#[test]
fn too_many_constants_reports_without_panicking() {
    let mut src = String::from("1");
    for i in 2..=256 {
        src.push_str(&format!("+{}", i));
    }
    let (r, kinds) = diag_kinds(&src);
    assert_eq!(r, Err(InterpretResultError::INTERPRET_COMPILE_ERROR));
    assert!(kinds.contains(&DiagKind::TooManyConstants));
}

#[test]
fn just_under_the_constant_limit_compiles() {
    let mut src = String::from("1");
    for i in 2..=255 {
        src.push_str(&format!("+{}", i));
    }
    let expected: f64 = (1..=255u32).map(f64::from).sum();
    assert_eq!(eval_ok(&src), expected);
}

#[test]
fn missing_close_paren_reports() {
    let (r, kinds) = diag_kinds("(1+2");
    assert_eq!(r, Err(InterpretResultError::INTERPRET_COMPILE_ERROR));
    assert!(kinds.contains(&DiagKind::ExpectedRightParen));
}

#[test]
fn trailing_tokens_report_expected_end() {
    let (r, kinds) = diag_kinds("1 2");
    assert_eq!(r, Err(InterpretResultError::INTERPRET_COMPILE_ERROR));
    assert!(kinds.contains(&DiagKind::ExpectedEndOfExpression));
}

#[test]
fn empty_source_reports_expected_expression() {
    let (r, kinds) = diag_kinds("");
    assert_eq!(r, Err(InterpretResultError::INTERPRET_COMPILE_ERROR));
    assert!(kinds.contains(&DiagKind::ExpectedExpression));
}

#[test]
fn stack_underflow_is_a_runtime_error() {
    let mut chunk = Chunk::init_chunk();
    chunk.write_chunk(roxty::chunk::OpCode::OP_ADD.byte(), 1);
    chunk.write_chunk(roxty::chunk::OpCode::OP_RETURN.byte(), 1);
    let mut vm = VM::new();
    vm.init_vm();
    let r = vm.run(&chunk);
    assert_eq!(r, Err(InterpretResultError::INTERPRET_RUNTIME_ERROR));
}

#[test]
fn unknown_opcode_is_an_internal_fault() {
    let mut chunk = Chunk::init_chunk();
    chunk.write_chunk(99, 1);
    let mut vm = VM::new();
    vm.init_vm();
    let r = vm.run(&chunk);
    assert_eq!(r, Err(InterpretResultError::INTERPRET_COMPILE_ERROR));
}

#[test]
fn nested_grouping_evaluates() {
    assert_eq!(eval_ok("((((5))))"), 5.0);
    assert_eq!(eval_ok("-(3*4)"), -12.0);
}

#[test]
fn panic_mode_suppresses_cascading_reports() {
    let (r, diags) = run_src("* *");
    assert_eq!(r, Err(InterpretResultError::INTERPRET_COMPILE_ERROR));
    assert_eq!(diags.len(), 1);
    assert_eq!(diags[0].kind, DiagKind::ExpectedExpression);
}

#[test]
fn diagnostics_locate_the_offence() {
    let (_, diags) = run_src("1 +");
    assert_eq!(diags[0].location, DiagLocation::AtEnd);
    let (_, diags) = run_src("1 2");
    assert_eq!(diags[0].location, DiagLocation::AtLexeme);
    assert_eq!((diags[0].start, diags[0].length), (2, 1));
    assert_eq!(diags[0].line, 1);
}
