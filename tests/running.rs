use bf_interp::instruction::{Instruction, ParseError};
use bf_interp::interpreter::interpret;
use bf_interp::lexer::parse;
use bf_interp::machine::{run, Action, Machine, RuntimeError, Status, TAPE_LEN};

const BUDGET: usize = 1_000_000;

#[test]
fn multiplication_prints_at_sign() {
    let o = interpret("++++++++[>++++++++<-]>.", &vec![], BUDGET).unwrap();
    assert_eq!(o.status, Status::Halted);
    assert_eq!(o.output, vec![0x40]);
}

#[test]
fn read_then_print_echoes_the_byte() {
    let o = interpret(",.", &vec![0x41], BUDGET).unwrap();
    assert_eq!(o.status, Status::Halted);
    assert_eq!(o.output, vec![0x41]);
}

#[test]
fn clear_loop_ends_without_output() {
    let o = interpret("+[-]", &vec![], BUDGET).unwrap();
    assert_eq!(o.status, Status::Halted);
    assert!(o.output.is_empty());
    // one pass through the loop: four instructions run in all
    let p = parse("+[-]").unwrap();
    assert_eq!(run(&p, &vec![], 4).status, Status::Halted);
    assert_eq!(run(&p, &vec![], 3).status, Status::OutOfSteps);
}

#[test]
fn unmatched_source_is_never_run() {
    assert!(matches!(interpret("[[]", &vec![], BUDGET), Err(ParseError::UnmatchedLoop)));
    assert!(matches!(interpret(".[", &vec![], BUDGET), Err(ParseError::UnmatchedLoop)));
}

#[test]
fn reruns_give_the_same_result() {
    let src = ",[.-]";
    let first = interpret(src, &vec![3], BUDGET).unwrap();
    let second = interpret(src, &vec![3], 2 * BUDGET).unwrap();
    assert_eq!(first.status, Status::Halted);
    assert_eq!(first.status, second.status);
    assert_eq!(first.output, vec![3, 2, 1]);
    assert_eq!(first.output, second.output);
}

#[test]
fn reading_past_the_input_fails() {
    let o = interpret(",.,.", &vec![7], BUDGET).unwrap();
    assert_eq!(o.status, Status::Failed(RuntimeError::InputExhausted));
    assert_eq!(o.output, vec![7]);
}

#[test]
fn moving_left_of_the_tape_fails() {
    let o = interpret(".<.", &vec![], BUDGET).unwrap();
    assert_eq!(o.status, Status::Failed(RuntimeError::OutOfBounds));
    assert_eq!(o.output, vec![0]);
}

#[test]
fn moving_right_of_the_tape_fails() {
    let to_last = ">".repeat(TAPE_LEN - 1);
    let ok = interpret(&(to_last.clone() + "+."), &vec![], BUDGET).unwrap();
    assert_eq!(ok.status, Status::Halted);
    assert_eq!(ok.output, vec![1]);
    let past = interpret(&(to_last + ">"), &vec![], BUDGET).unwrap();
    assert_eq!(past.status, Status::Failed(RuntimeError::OutOfBounds));
}

#[test]
fn cells_wrap_around() {
    let o = interpret("-.+.", &vec![], BUDGET).unwrap();
    assert_eq!(o.output, vec![255, 0]);
    let mut up = "+".repeat(256);
    up.push('.');
    assert_eq!(interpret(&up, &vec![], BUDGET).unwrap().output, vec![0]);
}

#[test]
fn endless_loop_spends_its_budget() {
    let o = interpret("+[]", &vec![], 50).unwrap();
    assert_eq!(o.status, Status::OutOfSteps);
    assert!(o.output.is_empty());
}

#[test]
fn budget_counts_steps() {
    let p = parse("+++").unwrap();
    assert_eq!(run(&p, &vec![], 2).status, Status::OutOfSteps);
    assert_eq!(run(&p, &vec![], 3).status, Status::Halted);
    assert_eq!(run(&vec![], &vec![], 0).status, Status::Halted);
}

#[test]
fn loop_is_skipped_on_zero_cell() {
    let o = interpret("[.]+.", &vec![], BUDGET).unwrap();
    assert_eq!(o.output, vec![1]);
}

#[test]
fn machine_steps_one_instruction_at_a_time() {
    let p = vec![Instruction::Increment, Instruction::Print, Instruction::Read, Instruction::MoveRight];
    let mut m = Machine::new();
    assert_eq!(m.step(&p), Ok(Action::Continue));
    assert_eq!(m.cell(0), 1);
    assert_eq!(m.step(&p), Ok(Action::Output(1)));
    assert_eq!(m.pc(), 2);
    assert_eq!(m.step(&p), Ok(Action::NeedInput));
    assert_eq!(m.pc(), 2);
    assert_eq!(m.supply_input(&p, Some(9)), Ok(()));
    assert_eq!(m.cell(0), 9);
    assert_eq!(m.step(&p), Ok(Action::Continue));
    assert_eq!(m.pointer(), 1);
    assert_eq!(m.step(&p), Ok(Action::Halt));
}

#[test]
fn machine_refuses_missing_input() {
    let p = vec![Instruction::Read];
    let mut m = Machine::new();
    assert_eq!(m.step(&p), Ok(Action::NeedInput));
    assert_eq!(m.supply_input(&p, None), Err(RuntimeError::InputExhausted));
    assert_eq!(m.pc(), 0);
}

#[test]
fn machine_jumps_past_loop_targets() {
    let p = parse("[+]").unwrap();
    let mut m = Machine::new();
    assert_eq!(m.step(&p), Ok(Action::Continue));
    assert_eq!(m.pc(), 3);
    let q = parse("+[-]").unwrap();
    let mut n = Machine::new();
    for _ in 0..3 {
        assert_eq!(n.step(&q), Ok(Action::Continue));
    }
    assert_eq!(n.pc(), 3);
    assert_eq!(n.step(&q), Ok(Action::Continue));
    assert_eq!(n.pc(), 4);
    assert_eq!(n.step(&q), Ok(Action::Halt));
}
