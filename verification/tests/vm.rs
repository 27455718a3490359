use forte::opcode::Opcode;
use forte::parser::parse;
use forte::program::Program;
use forte::RuntimeError;
use forte::Vm;

fn load_source(source: &str) -> Vm {
    let chars: Vec<char> = source.chars().collect();
    let program = parse(&chars).expect("source should tokenize");
    Vm::load(program)
}

fn run_to_stack(source: &str) -> Vec<i32> {
    let mut vm = load_source(source);
    vm.run().expect("program should run without error");
    vm.stack().clone()
}

#[test]
fn multi_digit_literal_concatenates() {
    assert_eq!(run_to_stack("123"), vec![123]);
}

#[test]
fn multi_digit_literal_prints() {
    let mut vm = load_source("123\u{A1}");
    assert_eq!(vm.run(), Ok(()));
    assert_eq!(vm.stack(), &Vec::<i32>::new());
}

#[test]
fn literal_folding_wraps_at_32_bits() {
    assert_eq!(run_to_stack("9999999999"), vec![1410065407]);
}

#[test]
fn loop_with_guard_three_runs_body_three_times() {
    assert_eq!(run_to_stack("3[1]"), vec![1, 1, 1]);
}

#[test]
fn loop_with_negative_guard_uses_magnitude() {
    assert_eq!(run_to_stack("3-[1]"), vec![1, 1, 1]);
}

#[test]
fn zero_guard_skips_loop_body() {
    assert_eq!(run_to_stack("0[1]"), Vec::<i32>::new());
}

#[test]
fn nested_loops_multiply_passes() {
    assert_eq!(run_to_stack("2[2[1]]"), vec![1, 1, 1, 1]);
}

#[test]
fn procedure_body_runs_once_per_call() {
    assert_eq!(run_to_stack("5{3}5@"), vec![3]);
}

#[test]
fn procedure_call_returns_past_the_call() {
    // After the call returns, the push behind the call site still runs.
    assert_eq!(run_to_stack("5{3}5@4"), vec![3, 4]);
}

#[test]
fn procedure_redefinition_wins() {
    assert_eq!(run_to_stack("5{1}5{2}5@"), vec![2]);
}

#[test]
fn unknown_call_is_noop() {
    let mut vm = load_source("7@");
    assert_eq!(vm.run(), Ok(()));
    assert_eq!(vm.stack(), &Vec::<i32>::new());
}

#[test]
fn pop_on_empty_stack_underflows_and_corrupts_nothing() {
    let mut vm = load_source(".");
    assert_eq!(vm.run(), Err(RuntimeError::StackUnderflow));
    assert_eq!(vm.stack(), &Vec::<i32>::new());
}

#[test]
fn dup_on_empty_stack_underflows() {
    let mut vm = load_source("_");
    assert_eq!(vm.run(), Err(RuntimeError::StackUnderflow));
}

#[test]
fn swap_needs_two_operands() {
    let mut vm = load_source("1,");
    assert_eq!(vm.run(), Err(RuntimeError::StackUnderflow));
    assert_eq!(vm.stack(), &vec![1]);
}

#[test]
fn extend_after_unwind_resumes_with_stack_and_dictionary_kept() {
    // The first run defines procedure 5, pops the 7, then fails on the
    // second pop with an empty stack.
    let mut vm = load_source("5{9}7..");
    assert_eq!(vm.run(), Err(RuntimeError::StackUnderflow));
    assert_eq!(vm.stack(), &Vec::<i32>::new());
    vm.unwind();
    // A run straight after unwinding does nothing.
    assert_eq!(vm.run(), Ok(()));
    assert_eq!(vm.stack(), &Vec::<i32>::new());
    // Only the appended instructions run; the dictionary still holds key 5.
    let chars: Vec<char> = "1 5@".chars().collect();
    let extension = parse(&chars).expect("extension should tokenize");
    vm.extend_program(extension);
    assert_eq!(vm.run(), Ok(()));
    assert_eq!(vm.stack(), &vec![1, 9]);
}

#[test]
fn addition_pops_two_pushes_sum() {
    assert_eq!(run_to_stack("12 3+"), vec![15]);
}

#[test]
fn subtraction_needs_non_digit_before_minus() {
    assert_eq!(run_to_stack("7 3 -"), vec![4]);
}

#[test]
fn minus_after_digit_negates() {
    assert_eq!(run_to_stack("42-"), vec![-42]);
}

#[test]
fn multiplication() {
    assert_eq!(run_to_stack("6 7*"), vec![42]);
}

#[test]
fn addition_wraps_at_32_bits() {
    assert_eq!(run_to_stack("2147483647 1+"), vec![i32::MIN]);
}

#[test]
fn negation_of_the_smallest_value_wraps() {
    assert_eq!(run_to_stack("2147483648-"), vec![i32::MIN]);
}

#[test]
fn division_truncates_toward_zero() {
    assert_eq!(run_to_stack("7-2/"), vec![-3]);
}

#[test]
fn remainder() {
    assert_eq!(run_to_stack("7 3%"), vec![1]);
}

#[test]
fn division_by_zero_is_reported_and_mutates_nothing() {
    let mut vm = load_source("5 0/");
    assert_eq!(vm.run(), Err(RuntimeError::DivisionByZero));
    assert_eq!(vm.stack(), &vec![5, 0]);
}

#[test]
fn remainder_by_zero_is_reported() {
    let mut vm = load_source("5 0%");
    assert_eq!(vm.run(), Err(RuntimeError::DivisionByZero));
}

#[test]
fn division_overflow_is_reported() {
    // The ten-digit literal wraps to the smallest 32-bit value, whose
    // quotient by -1 does not fit.
    let mut vm = load_source("2147483648 1-/");
    assert_eq!(vm.run(), Err(RuntimeError::DivisionOverflow));
    assert_eq!(vm.stack(), &vec![i32::MIN, -1]);
}

#[test]
fn comparisons_push_one_or_zero() {
    assert_eq!(run_to_stack("4 4="), vec![1]);
    assert_eq!(run_to_stack("3 4="), vec![0]);
    assert_eq!(run_to_stack("3 4>"), vec![0]);
    assert_eq!(run_to_stack("4 3>"), vec![1]);
    assert_eq!(run_to_stack("3 4<"), vec![1]);
}

#[test]
fn bitwise_operations() {
    assert_eq!(run_to_stack("6 3&"), vec![2]);
    assert_eq!(run_to_stack("6 3^"), vec![5]);
    assert_eq!(run_to_stack("6 3|"), vec![7]);
    assert_eq!(run_to_stack("0~"), vec![-1]);
}

#[test]
fn shifts_use_low_five_bits_of_the_amount() {
    assert_eq!(run_to_stack("1 3\u{AB}"), vec![8]);
    assert_eq!(run_to_stack("8 2\u{BB}"), vec![2]);
    // A shift by 33 acts as a shift by 1.
    assert_eq!(run_to_stack("1 33\u{AB}"), vec![2]);
}

#[test]
fn right_shift_of_negative_keeps_the_sign() {
    assert_eq!(run_to_stack("8-2\u{BB}"), vec![-2]);
}

#[test]
fn swap_and_dup() {
    assert_eq!(run_to_stack("1 2,"), vec![2, 1]);
    assert_eq!(run_to_stack("5_"), vec![5, 5]);
}

#[test]
fn halt_stops_the_run() {
    assert_eq!(run_to_stack("1\u{A7}2"), vec![1]);
}

#[test]
fn step_executes_one_instruction_at_a_time() {
    let mut vm = load_source("12");
    assert_eq!(vm.step(), Ok(()));
    assert_eq!(vm.stack(), &vec![1]);
    assert_eq!(vm.step(), Ok(()));
    assert_eq!(vm.stack(), &vec![12]);
    // Past the end of the code, stepping does nothing.
    assert_eq!(vm.step(), Ok(()));
    assert_eq!(vm.stack(), &vec![12]);
}

#[test]
fn loop_exit_without_loop_underflows() {
    let mut program = Program::new();
    program.push(Opcode::Until);
    let mut vm = Vm::load(program);
    assert_eq!(vm.run(), Err(RuntimeError::LoopUnderflow));
}

#[test]
fn dangling_loop_opener_with_zero_guard_is_reported() {
    let mut vm = load_source("0[");
    assert_eq!(vm.run(), Err(RuntimeError::UnmatchedMarker));
}

#[test]
fn dangling_procedure_opener_is_reported() {
    let mut vm = load_source("5{");
    assert_eq!(vm.run(), Err(RuntimeError::UnmatchedMarker));
}

#[test]
fn new_machine_is_empty_and_runs_at_once() {
    let mut vm = Vm::new();
    assert_eq!(vm.run(), Ok(()));
    assert_eq!(vm.stack(), &Vec::<i32>::new());
}
