use what_the_brainfuck::compiler::compile_code;
use what_the_brainfuck::executor::execute_source;
use what_the_brainfuck::executor::run;
use what_the_brainfuck::ops::BrainFuckError;
use what_the_brainfuck::parser::parse_code;

const BUDGET: u64 = 1_000_000;

#[test]
fn empty_program_completes_with_no_output() {
    let outcome = execute_source("", 3, &[], BUDGET).unwrap().unwrap();
    assert_eq!(outcome.error, None);
    assert_eq!(outcome.output, Vec::<u8>::new());
    assert_eq!(outcome.tape, vec![0, 0, 0]);
    assert_eq!(outcome.pointer, 0);
}

#[test]
fn increment_255_times_succeeds_and_leaves_the_cell_at_255() {
    let source: String = "+".repeat(255);
    let outcome = execute_source(&source, 1, &[], BUDGET).unwrap().unwrap();
    assert_eq!(outcome.error, None);
    assert_eq!(outcome.tape, vec![255]);
}

#[test]
fn increment_256_times_fails_with_incorrect_value() {
    let source: String = "+".repeat(256);
    let outcome = execute_source(&source, 1, &[], BUDGET).unwrap().unwrap();
    assert_eq!(outcome.error, Some(BrainFuckError::IncorrectValue));
}

#[test]
fn decrement_below_zero_fails_with_incorrect_value() {
    let outcome = execute_source("-", 1, &[], BUDGET).unwrap().unwrap();
    assert_eq!(outcome.error, Some(BrainFuckError::IncorrectValue));
}

#[test]
fn move_right_on_a_one_cell_tape_fails_with_pointer_out_of_bound() {
    let outcome = execute_source(">", 1, &[], BUDGET).unwrap().unwrap();
    assert_eq!(outcome.error, Some(BrainFuckError::PointerOutOfBound));
}

#[test]
fn move_right_on_a_two_cell_tape_ends_at_index_one() {
    let outcome = execute_source(">", 2, &[], BUDGET).unwrap().unwrap();
    assert_eq!(outcome.error, None);
    assert_eq!(outcome.pointer, 1);
}

#[test]
fn move_left_at_the_left_edge_fails_with_pointer_out_of_bound() {
    let outcome = execute_source("<", 5, &[], BUDGET).unwrap().unwrap();
    assert_eq!(outcome.error, Some(BrainFuckError::PointerOutOfBound));
}

#[test]
fn unary_decrement_print_loop_emits_descending_codes() {
    let outcome = execute_source(",[.-]", 1, &[3], BUDGET).unwrap().unwrap();
    assert_eq!(outcome.error, None);
    assert_eq!(outcome.output, vec![3, 2, 1]);
    assert_eq!(outcome.tape, vec![0]);
}

#[test]
fn drain_loop_moves_the_second_cell_into_the_first() {
    let outcome = execute_source("++>+++[-<+>]<", 2, &[], BUDGET).unwrap().unwrap();
    assert_eq!(outcome.error, None);
    assert_eq!(outcome.output, Vec::<u8>::new());
    assert_eq!(outcome.tape, vec![5, 0]);
    assert_eq!(outcome.pointer, 0);
}

#[test]
fn output_emitted_before_a_failure_stands() {
    let outcome = execute_source("+.>", 1, &[], BUDGET).unwrap().unwrap();
    assert_eq!(outcome.error, Some(BrainFuckError::PointerOutOfBound));
    assert_eq!(outcome.output, vec![1]);
}

#[test]
fn unbalanced_source_fails_before_anything_runs() {
    let r = execute_source(".[", 1, &[], BUDGET);
    assert!(matches!(r, Err(BrainFuckError::SyntaxError)));
}

#[test]
fn input_instruction_stores_the_next_input_byte() {
    let outcome = execute_source(",>,", 2, &[7, 200], BUDGET).unwrap().unwrap();
    assert_eq!(outcome.error, None);
    assert_eq!(outcome.tape, vec![7, 200]);
}

#[test]
fn exhausted_input_fails_gracefully_with_input_exhausted() {
    let outcome = execute_source(",", 1, &[], BUDGET).unwrap().unwrap();
    assert_eq!(outcome.error, Some(BrainFuckError::InputExhausted));
    let outcome = execute_source(",,", 1, &[9], BUDGET).unwrap().unwrap();
    assert_eq!(outcome.error, Some(BrainFuckError::InputExhausted));
}

#[test]
fn any_instruction_on_an_empty_tape_fails_with_pointer_out_of_bound() {
    let outcome = execute_source("+", 0, &[], BUDGET).unwrap().unwrap();
    assert_eq!(outcome.error, Some(BrainFuckError::PointerOutOfBound));
}

#[test]
fn a_program_that_loops_forever_exhausts_the_step_budget() {
    let r = execute_source("+[]", 1, &[], 10_000).unwrap();
    assert!(r.is_none());
}

#[test]
fn skipped_loop_body_never_runs() {
    // the loop is skipped because the cell is zero, so the `<` inside never
    // gets a chance to fail
    let outcome = execute_source("[<<<].", 1, &[], BUDGET).unwrap().unwrap();
    assert_eq!(outcome.error, None);
    assert_eq!(outcome.output, vec![0]);
}

#[test]
fn run_reports_the_same_outcome_as_execute_source() {
    let compiled = compile_code(parse_code(",[.-]")).unwrap();
    let outcome = run(1, compiled, &[3], BUDGET).unwrap();
    assert_eq!(outcome.error, None);
    assert_eq!(outcome.output, vec![3, 2, 1]);
}

#[test]
fn rerunning_the_same_program_yields_the_identical_outcome() {
    let source = ",[.-]>+<";
    let input = [5];
    let first = execute_source(source, 2, &input, BUDGET).unwrap().unwrap();
    let second = execute_source(source, 2, &input, BUDGET).unwrap().unwrap();
    assert_eq!(first.output, second.output);
    assert_eq!(first.error, second.error);
    assert_eq!(first.tape, second.tape);
    assert_eq!(first.pointer, second.pointer);
}
