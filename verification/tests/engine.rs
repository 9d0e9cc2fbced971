use headache::{Command, EndOfInputPolicy, Fault, RunStatus, StepResult, TuringMachine};

fn prog(src: &str) -> Vec<Command> {
    let chars: Vec<char> = src.chars().collect();
    headache::parse_program(&chars)
}

const BUDGET: usize = 1_000_000;

#[test]
fn unwritten_cells_read_zero() {
    let m = TuringMachine::with_program(prog(""));
    assert_eq!(m.read_ram_ptr(), 0);
    assert_eq!(m.read_cell(0), 0);
    assert_eq!(m.read_cell(12345), 0);
    assert_eq!(m.read_cell(-7), 0);
    assert_eq!(m.read_cell(i64::MAX), 0);
    assert_eq!(m.read_cell(i64::MIN), 0);
}

#[test]
fn add_then_sub_restores_cell() {
    let mut m = TuringMachine::with_program(prog("+-"));
    assert!(matches!(m.step(), Ok(StepResult::Stepped)));
    assert_eq!(m.read_ram_ptr(), 1);
    assert!(matches!(m.step(), Ok(StepResult::Stepped)));
    assert_eq!(m.read_ram_ptr(), 0);
    assert_eq!(m.program_counter(), 2);
    assert_eq!(m.data_pointer(), 0);
}

#[test]
fn add_sub_inverse_across_wraparound() {
    let mut m = TuringMachine::with_program(prog("+-"));
    m.write_ram_ptr(u32::MAX);
    assert!(matches!(m.step(), Ok(StepResult::Stepped)));
    assert_eq!(m.read_ram_ptr(), 0, "increment at the maximum wraps to zero");
    assert!(matches!(m.step(), Ok(StepResult::Stepped)));
    assert_eq!(m.read_ram_ptr(), u32::MAX, "decrement wraps back to the maximum");
}

#[test]
fn zero_guard_skips_loop_body() {
    let mut m = TuringMachine::with_program(prog("[+++]-"));
    assert!(matches!(m.step(), Ok(StepResult::Stepped)));
    assert_eq!(m.program_counter(), 5, "control resumes just past the matching bracket");
    assert_eq!(m.read_ram_ptr(), 0, "the loop body never ran");
    assert!(matches!(m.step(), Ok(StepResult::Stepped)));
    assert_eq!(m.read_ram_ptr(), u32::MAX);
    assert_eq!(m.program_counter(), 6);
}

#[test]
fn move_loop_conserves_count() {
    let mut m = TuringMachine::with_program(prog("+++++[->+<]"));
    let mut out = Vec::new();
    assert!(matches!(m.run(&mut out, BUDGET), Ok(RunStatus::Halted)));
    assert_eq!(m.read_cell(0), 0);
    assert_eq!(m.read_cell(1), 5);
    assert_eq!(m.data_pointer(), 0);
    assert!(out.is_empty());
}

#[test]
fn nested_brackets_skip_by_depth() {
    // With a zero guard, the forward scan must land past the *depth*
    // matching bracket at index 4, not past the nearest one at index 3.
    let mut m = TuringMachine::with_program(prog("[[-]]+"));
    assert!(matches!(m.step(), Ok(StepResult::Stepped)));
    assert_eq!(m.program_counter(), 5);
    let mut out = Vec::new();
    assert!(matches!(m.run(&mut out, BUDGET), Ok(RunStatus::Halted)));
    assert_eq!(m.read_cell(0), 1);
}

#[test]
fn nested_brackets_inner_resolves_before_outer() {
    let mut m = TuringMachine::with_program(prog("++[[-]]"));
    assert!(matches!(m.step(), Ok(StepResult::Stepped)));
    assert!(matches!(m.step(), Ok(StepResult::Stepped)));
    assert_eq!(m.read_ram_ptr(), 2);
    assert!(matches!(m.step(), Ok(StepResult::Stepped))); // outer [ falls through
    assert_eq!(m.program_counter(), 3);
    assert!(matches!(m.step(), Ok(StepResult::Stepped))); // inner [ falls through
    assert_eq!(m.program_counter(), 4);
    assert!(matches!(m.step(), Ok(StepResult::Stepped))); // - to 1
    assert_eq!(m.read_ram_ptr(), 1);
    assert!(matches!(m.step(), Ok(StepResult::Stepped))); // inner ] jumps back
    assert_eq!(m.program_counter(), 4, "the inner loop re-enters its own body");
    assert!(matches!(m.step(), Ok(StepResult::Stepped))); // - to 0
    assert!(matches!(m.step(), Ok(StepResult::Stepped))); // inner ] falls through
    assert_eq!(m.program_counter(), 6);
    assert!(matches!(m.step(), Ok(StepResult::Stepped))); // outer ] falls through
    assert_eq!(m.program_counter(), 7);
    assert_eq!(m.read_ram_ptr(), 0);
}

#[test]
fn golden_hello() {
    let src = "++++++++[>++++[>++>+++>+++>+<<<<-]>+>+>->>+[<]<-]>>.>---.+++++++..+++.";
    let mut m = TuringMachine::with_program(prog(src));
    let mut out = Vec::new();
    assert!(matches!(m.run(&mut out, BUDGET), Ok(RunStatus::Halted)));
    let text: String = out.into_iter().collect();
    assert_eq!(text, "Hello");
}

#[test]
fn input_then_output_echoes() {
    let mut m = TuringMachine::with_program(prog(",."));
    let mut out = Vec::new();
    assert!(matches!(m.run(&mut out, BUDGET), Ok(RunStatus::AwaitingInput)));
    assert!(m.is_awaiting_input());
    assert!(out.is_empty());
    let line: Vec<char> = vec!['A', '\n'];
    m.provide_input_line(&line);
    assert!(!m.is_awaiting_input());
    assert!(matches!(m.run(&mut out, BUDGET), Ok(RunStatus::Halted)));
    assert_eq!(out, vec!['A']);
    assert_eq!(m.read_cell(0), 'A' as u32);
}

#[test]
fn unmatched_open_bracket_faults() {
    let mut m = TuringMachine::with_program(prog("["));
    let r = m.step();
    assert!(matches!(r, Err(Fault::ScanOutOfRange)));
    assert_eq!(m.program_counter(), 0, "a fault leaves the state unchanged");
}

#[test]
fn unmatched_close_bracket_faults() {
    let mut m = TuringMachine::with_program(prog("+]"));
    let mut out = Vec::new();
    let r = m.run(&mut out, BUDGET);
    assert!(matches!(r, Err(Fault::ScanOutOfRange)));
    assert_eq!(m.program_counter(), 1);
}

#[test]
fn step_past_end_is_a_caller_bug() {
    let mut m = TuringMachine::with_program(prog(""));
    assert!(matches!(m.step(), Err(Fault::ProgramCounterOutOfRange)));
    let mut out = Vec::new();
    assert!(matches!(m.run(&mut out, BUDGET), Ok(RunStatus::Halted)));
}

#[test]
fn invalid_output_value_faults() {
    let mut m = TuringMachine::with_program(prog("."));
    m.write_ram_ptr(0xD800);
    assert!(matches!(m.step(), Err(Fault::InvalidOutputValue)));
    assert_eq!(m.program_counter(), 0);
}

#[test]
fn output_emits_character_of_cell_value() {
    let mut m = TuringMachine::with_program(prog("."));
    m.write_ram_ptr('z' as u32);
    match m.step() {
        Ok(StepResult::Emitted(c)) => assert_eq!(c, 'z'),
        other => panic!("expected an emitted character, got {:?}", other),
    }
}

#[test]
fn pointer_moves_are_unbounded_both_ways() {
    let mut m = TuringMachine::with_program(prog("><<"));
    let mut out = Vec::new();
    assert!(matches!(m.run(&mut out, BUDGET), Ok(RunStatus::Halted)));
    assert_eq!(m.data_pointer(), -1);
    assert_eq!(m.read_ram_ptr(), 0);
}

#[test]
fn end_of_input_write_zero_policy() {
    let mut m = TuringMachine::with_program(prog(","));
    m.write_ram_ptr(7);
    assert!(matches!(m.step(), Ok(StepResult::NeedsInput)));
    assert!(m.is_awaiting_input());
    assert!(matches!(m.end_of_input(EndOfInputPolicy::WriteZero), Ok(())));
    assert_eq!(m.read_cell(0), 0);
    assert_eq!(m.program_counter(), 1);
}

#[test]
fn end_of_input_leave_unchanged_policy() {
    let mut m = TuringMachine::with_program(prog(","));
    m.write_ram_ptr(7);
    assert!(matches!(m.step(), Ok(StepResult::NeedsInput)));
    assert!(matches!(m.end_of_input(EndOfInputPolicy::LeaveUnchanged), Ok(())));
    assert_eq!(m.read_cell(0), 7);
    assert_eq!(m.program_counter(), 1);
}

#[test]
fn end_of_input_fail_policy() {
    let mut m = TuringMachine::with_program(prog(","));
    assert!(matches!(m.step(), Ok(StepResult::NeedsInput)));
    assert!(matches!(m.end_of_input(EndOfInputPolicy::Fail), Err(Fault::EndOfInput)));
    assert_eq!(m.program_counter(), 0);
}

#[test]
fn input_line_endings_are_stripped() {
    let mut m = TuringMachine::with_program(prog(",,,"));
    let line: Vec<char> = vec!['h', 'i', '\r', '\n'];
    m.provide_input_line(&line);
    assert!(matches!(m.step(), Ok(StepResult::Stepped)));
    assert_eq!(m.read_cell(0), 'h' as u32);
    assert!(matches!(m.step(), Ok(StepResult::Stepped)));
    assert_eq!(m.read_cell(0), 'i' as u32);
    assert!(
        matches!(m.step(), Ok(StepResult::NeedsInput)),
        "the carriage return and newline never enter the buffer"
    );
}

#[test]
fn bare_carriage_return_is_stripped() {
    let mut m = TuringMachine::with_program(prog(",,"));
    let line: Vec<char> = vec!['x', '\r'];
    m.provide_input_line(&line);
    assert!(matches!(m.step(), Ok(StepResult::Stepped)));
    assert_eq!(m.read_cell(0), 'x' as u32);
    assert!(matches!(m.step(), Ok(StepResult::NeedsInput)));
}

#[test]
fn empty_line_leaves_engine_awaiting() {
    let mut m = TuringMachine::with_program(prog(","));
    let line: Vec<char> = vec!['\n'];
    m.provide_input_line(&line);
    assert!(matches!(m.step(), Ok(StepResult::NeedsInput)));
}

#[test]
fn step_budget_pauses_endless_loop() {
    let mut m = TuringMachine::with_program(prog("+[]"));
    let mut out = Vec::new();
    assert!(matches!(m.run(&mut out, 100), Ok(RunStatus::StepLimit)));
    assert!(matches!(m.run(&mut out, 100), Ok(RunStatus::StepLimit)));
    assert!(out.is_empty());
}
