use tapevm::compile::read_to_format;
use tapevm::exec::execute;
use tapevm::exec::ExecOutcome;
use tapevm::exec::TAPE_LEN;
use tapevm::inst::CompileError;
use tapevm::inst::Instruction;
use tapevm::inst::RuntimeError;
use tapevm::text::print_instruction;
use tapevm::text::print_instructions;

fn compile(source: &str) -> Result<Vec<Instruction>, CompileError> {
    read_to_format(&source.as_bytes().to_vec())
}

fn run(source: &str, input: &[u8], max_steps: u64) -> ExecOutcome {
    let program = compile(source).expect("source should compile");
    execute(&program, &input.to_vec(), max_steps)
}

#[test]
fn plus_run_collapses_to_one_add() {
    assert_eq!(compile("+++++"), Ok(vec![Instruction::Add(5)]));
}

#[test]
fn plus_run_of_256_wraps_to_add_zero() {
    let source = "+".repeat(256);
    assert_eq!(compile(&source), Ok(vec![Instruction::Add(0)]));
}

#[test]
fn runs_of_each_operator_collapse() {
    assert_eq!(
        compile("++>>--<<"),
        Ok(vec![
            Instruction::Add(2),
            Instruction::MoveRight(2),
            Instruction::Subtract(2),
            Instruction::MoveLeft(2),
        ])
    );
}

#[test]
fn comment_text_is_transparent() {
    assert_eq!(compile("a+b+c +! comment"), Ok(vec![Instruction::Add(3)]));
}

#[test]
fn empty_source_compiles_to_empty_program() {
    assert_eq!(compile(""), Ok(vec![]));
}

#[test]
fn loop_brackets_resolve_to_paired_jumps() {
    assert_eq!(
        compile("+[-]"),
        Ok(vec![
            Instruction::Add(1),
            Instruction::JumpIfZero(3),
            Instruction::Subtract(1),
            Instruction::JumpIfNotZero(1),
        ])
    );
}

#[test]
fn nested_loops_resolve_inside_out() {
    assert_eq!(
        compile("[[]]"),
        Ok(vec![
            Instruction::JumpIfZero(3),
            Instruction::JumpIfZero(2),
            Instruction::JumpIfNotZero(1),
            Instruction::JumpIfNotZero(0),
        ])
    );
}

#[test]
fn unmatched_close_is_unopened_loop() {
    assert_eq!(compile("]"), Err(CompileError::UnopenedLoop));
    assert_eq!(compile("+]+"), Err(CompileError::UnopenedLoop));
}

#[test]
fn unmatched_open_is_unclosed_loop() {
    assert_eq!(compile("["), Err(CompileError::UnclosedLoop));
    assert_eq!(compile("++[+"), Err(CompileError::UnclosedLoop));
}

#[test]
fn excess_close_wins_over_unclosed_open() {
    // The scan stops at the close bracket even though an open one follows.
    assert_eq!(compile("]["), Err(CompileError::UnopenedLoop));
}

#[test]
fn end_to_end_move_then_output() {
    match run("++>+++.", &[], 1_000) {
        ExecOutcome::Halted { output, tape } => {
            assert_eq!(output, vec![3]);
            assert_eq!(tape.len(), TAPE_LEN);
            assert_eq!(tape[0], 2);
            assert_eq!(tape[1], 3);
        }
        other => panic!("expected a successful run, got {:?}", other),
    }
}

#[test]
fn end_to_end_loop_clears_cell() {
    match run("+[-]", &[], 1_000) {
        ExecOutcome::Halted { output, tape } => {
            assert_eq!(output, vec![]);
            assert_eq!(tape[0], 0);
        }
        other => panic!("expected a successful run, got {:?}", other),
    }
}

#[test]
fn end_to_end_move_left_from_zero_fails() {
    assert!(matches!(
        run("<", &[], 1_000),
        ExecOutcome::Failed(RuntimeError::NegativeIndex)
    ));
}

#[test]
fn end_to_end_input_echoes_to_output() {
    match run(",.", &[65], 1_000) {
        ExecOutcome::Halted { output, tape } => {
            assert_eq!(output, vec![65]);
            assert_eq!(tape[0], 65);
        }
        other => panic!("expected a successful run, got {:?}", other),
    }
}

#[test]
fn input_past_end_of_input_fails() {
    assert!(matches!(
        run(",", &[], 1_000),
        ExecOutcome::Failed(RuntimeError::MissingInput)
    ));
}

#[test]
fn second_input_after_exhaustion_fails() {
    assert!(matches!(
        run(",,", &[65], 1_000),
        ExecOutcome::Failed(RuntimeError::MissingInput)
    ));
}

#[test]
fn moving_past_the_tape_fails() {
    let source = ">".repeat(TAPE_LEN);
    assert!(matches!(
        run(&source, &[], 1_000),
        ExecOutcome::Failed(RuntimeError::OutOfBounds)
    ));
}

#[test]
fn moving_to_the_last_cell_is_allowed() {
    let source = ">".repeat(TAPE_LEN - 1);
    assert!(matches!(
        run(&source, &[], 1_000),
        ExecOutcome::Halted { .. }
    ));
}

#[test]
fn non_terminating_loop_runs_out_of_steps() {
    assert!(matches!(run("+[]", &[], 1_000), ExecOutcome::OutOfSteps));
}

#[test]
fn placeholder_instruction_is_malformed_at_run_time() {
    let program = vec![Instruction::UnresolvedLoopStart];
    assert!(matches!(
        execute(&program, &vec![], 1_000),
        ExecOutcome::Failed(RuntimeError::MalformedProgram)
    ));
}

#[test]
fn subtract_from_zero_wraps_to_255() {
    match run("-.", &[], 1_000) {
        ExecOutcome::Halted { output, .. } => assert_eq!(output, vec![255]),
        other => panic!("expected a successful run, got {:?}", other),
    }
}

#[test]
fn add_run_past_255_wraps_around() {
    let source = format!("{}.", "+".repeat(300));
    match run(&source, &[], 1_000) {
        ExecOutcome::Halted { output, .. } => assert_eq!(output, vec![44]),
        other => panic!("expected a successful run, got {:?}", other),
    }
}

#[test]
fn add_then_subtract_restores_the_cell() {
    // 200 increments then 200 decrements bring cell 0 back to where the
    // first 7 increments left it.
    let source = format!("+++++++{}{}.", "+".repeat(200), "-".repeat(200));
    match run(&source, &[], 10_000) {
        ExecOutcome::Halted { output, .. } => assert_eq!(output, vec![7]),
        other => panic!("expected a successful run, got {:?}", other),
    }
}

#[test]
fn zero_step_budget_reports_out_of_steps() {
    assert!(matches!(run("+", &[], 0), ExecOutcome::OutOfSteps));
}

#[test]
fn exact_step_budget_is_enough_to_halt() {
    assert!(matches!(run("+.", &[], 2), ExecOutcome::Halted { .. }));
    assert!(matches!(run("+.", &[], 1), ExecOutcome::OutOfSteps));
}

#[test]
fn empty_program_halts_even_with_zero_budget() {
    assert!(matches!(run("", &[], 0), ExecOutcome::Halted { .. }));
}

#[test]
fn instruction_text_shows_name_and_count() {
    assert_eq!(print_instruction(&Instruction::Add(5)), "Add(5)");
    assert_eq!(print_instruction(&Instruction::Add(0)), "Add(0)");
    assert_eq!(print_instruction(&Instruction::Add(255)), "Add(255)");
    assert_eq!(print_instruction(&Instruction::Subtract(17)), "Subtract(17)");
    assert_eq!(print_instruction(&Instruction::MoveLeft(1)), "MoveLeft(1)");
    assert_eq!(
        print_instruction(&Instruction::MoveRight(30000)),
        "MoveRight(30000)"
    );
    assert_eq!(
        print_instruction(&Instruction::JumpIfZero(12)),
        "JumpIfZero(12)"
    );
    assert_eq!(
        print_instruction(&Instruction::JumpIfNotZero(3)),
        "JumpIfNotZero(3)"
    );
    assert_eq!(print_instruction(&Instruction::Output), "Output");
    assert_eq!(print_instruction(&Instruction::Input), "Input");
    assert_eq!(
        print_instruction(&Instruction::UnresolvedLoopStart),
        "UnresolvedLoopStart"
    );
}

#[test]
fn listing_puts_one_instruction_per_line() {
    let program = compile("+[-]").expect("source should compile");
    assert_eq!(
        print_instructions(&program),
        "Add(1)\nJumpIfZero(3)\nSubtract(1)\nJumpIfNotZero(1)\n"
    );
}

#[test]
fn listing_of_the_empty_program_is_empty() {
    assert_eq!(print_instructions(&vec![]), "");
}
