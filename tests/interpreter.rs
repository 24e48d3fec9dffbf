use bf_engine::jump::{generate_bracket_jumptables, BracketError};
use bf_engine::machine::{Effect, Fault, Machine, RunError, TAPE_LEN};

fn run_program(program: &str, input: &[u8], max_steps: usize) -> (Machine, Vec<u8>, Result<(), RunError>) {
    let mut m = Machine::new(program.as_bytes().to_vec()).unwrap();
    let mut out = Vec::new();
    let r = m.run(input, max_steps, &mut out);
    (m, out, r)
}

#[test]
fn jump_table_pairs_adjacent_brackets() {
    assert_eq!(generate_bracket_jumptables(b"[]"), Ok(vec![1, 0]));
}

#[test]
fn jump_table_nested_and_comments() {
    let t = generate_bracket_jumptables(b"a[b[c]d]e[]").unwrap();
    assert_eq!(t, vec![0, 7, 0, 5, 0, 3, 0, 1, 0, 10, 9]);
}

#[test]
fn jump_table_is_symmetric() {
    let src = b"+[>[-]<[[]]]+[.]";
    let t = generate_bracket_jumptables(src).unwrap();
    for (i, &b) in src.iter().enumerate() {
        if b == b'[' || b == b']' {
            assert_eq!(t[t[i] as usize] as usize, i);
            assert_ne!(src[t[i] as usize], b);
        } else {
            assert_eq!(t[i], 0);
        }
    }
}

#[test]
fn jump_table_empty_program() {
    assert_eq!(generate_bracket_jumptables(b""), Ok(vec![]));
}

#[test]
fn unmatched_close_alone() {
    assert_eq!(generate_bracket_jumptables(b"]"), Err(BracketError::UnmatchedClose(0)));
}

#[test]
fn unmatched_close_reports_first() {
    assert_eq!(generate_bracket_jumptables(b"[]]["), Err(BracketError::UnmatchedClose(2)));
}

#[test]
fn unmatched_close_wins_over_open() {
    assert_eq!(generate_bracket_jumptables(b"[[]]]]"), Err(BracketError::UnmatchedClose(4)));
}

#[test]
fn unmatched_opens_all_listed() {
    assert_eq!(
        generate_bracket_jumptables(b"[+[[]-[x"),
        Err(BracketError::UnmatchedOpen(vec![0, 2, 6]))
    );
}

#[test]
fn unmatched_open_single() {
    assert_eq!(generate_bracket_jumptables(b"[][[]"), Err(BracketError::UnmatchedOpen(vec![2])));
}

#[test]
fn machine_refuses_unmatched_close() {
    assert_eq!(Machine::new(b"+]+".to_vec()).err(), Some(BracketError::UnmatchedClose(1)));
}

#[test]
fn machine_refuses_unmatched_open() {
    assert_eq!(Machine::new(b"[[+]".to_vec()).err(), Some(BracketError::UnmatchedOpen(vec![0])));
}

#[test]
fn fresh_machine_state() {
    let m = Machine::new(b"+".to_vec()).unwrap();
    assert_eq!(m.ip(), 0);
    assert_eq!(m.dp(), 0);
    assert_eq!(m.cell(0), Some(0));
    assert_eq!(m.cell(TAPE_LEN - 1), Some(0));
    assert_eq!(m.cell(TAPE_LEN), None);
    assert!(!m.halted());
}

#[test]
fn increments_wrap_after_256() {
    let program = "+".repeat(256);
    let (m, out, r) = run_program(&program, b"", 1000);
    assert_eq!(r, Ok(()));
    assert!(out.is_empty());
    assert_eq!(m.cell(0), Some(0));
}

#[test]
fn increment_of_255_gives_zero() {
    let program = "+".repeat(255);
    let (m, _, _) = run_program(&program, b"", 1000);
    assert_eq!(m.cell(0), Some(255));
    let (m, _, _) = run_program(&(program + "+"), b"", 1000);
    assert_eq!(m.cell(0), Some(0));
}

#[test]
fn decrement_of_zero_gives_255() {
    let (m, _, r) = run_program("-", b"", 10);
    assert_eq!(r, Ok(()));
    assert_eq!(m.cell(0), Some(255));
}

#[test]
fn empty_loop_on_zero_takes_two_steps() {
    let mut m = Machine::new(b"[]".to_vec()).unwrap();
    assert_eq!(m.step(), Ok(Effect::Continue));
    assert_eq!(m.ip(), 1);
    assert_eq!(m.step(), Ok(Effect::Continue));
    assert_eq!(m.ip(), 2);
    assert!(m.halted());
    assert_eq!(m.step(), Ok(Effect::Halted));
    assert_eq!(m.cell(0), Some(0));
}

#[test]
fn empty_loop_run_needs_exactly_two_steps() {
    let (_, _, r) = run_program("[]", b"", 1);
    assert_eq!(r, Err(RunError::StepLimit));
    let (m, out, r) = run_program("[]", b"", 2);
    assert_eq!(r, Ok(()));
    assert!(out.is_empty());
    assert_eq!(m.ip(), 2);
}

#[test]
fn two_increments_then_output() {
    let (_, out, r) = run_program("++.", b"", 100);
    assert_eq!(r, Ok(()));
    assert_eq!(out, vec![2]);
}

#[test]
fn input_copied_to_output() {
    let (_, out, r) = run_program(",.", &[0xc3], 100);
    assert_eq!(r, Ok(()));
    assert_eq!(out, vec![0xc3]);
}

#[test]
fn input_step_by_step() {
    let mut m = Machine::new(b",.".to_vec()).unwrap();
    assert!(m.awaits_input());
    assert_eq!(m.step(), Ok(Effect::AwaitInput));
    assert_eq!(m.ip(), 0);
    m.provide_input(b'z');
    assert!(!m.awaits_input());
    assert_eq!(m.step(), Ok(Effect::Output(b'z')));
    assert_eq!(m.step(), Ok(Effect::Halted));
}

#[test]
fn increment_then_loop_clears_cell() {
    let (m, out, r) = run_program("+[-]", b"", 100);
    assert_eq!(r, Ok(()));
    assert!(out.is_empty());
    assert_eq!(m.cell(0), Some(0));
    assert!(m.halted());
}

#[test]
fn hello_world() {
    let program = "++++++++[>++++[>++>+++>+++>+<<<<-]>+>+>->>+[<]<-]>>.>---.+++++++..+++.>>.<-.<.+++.------.--------.>>+.>++.";
    let (_, out, r) = run_program(program, b"", 10_000);
    assert_eq!(r, Ok(()));
    assert_eq!(out, b"Hello World!\n".to_vec());
}

#[test]
fn comments_are_no_ops() {
    let (m, out, r) = run_program("a+b c+\n.z", b"", 100);
    assert_eq!(r, Ok(()));
    assert_eq!(out, vec![2]);
    assert_eq!(m.ip(), 9);
}

#[test]
fn move_left_from_first_cell_fails() {
    let (m, out, r) = run_program("+.<+", b"", 100);
    assert_eq!(r, Err(RunError::Fault(Fault::PointerUnderflow)));
    assert_eq!(out, vec![1]);
    assert_eq!(m.ip(), 2);
    assert_eq!(m.cell(0), Some(1));
}

#[test]
fn move_right_past_last_cell_fails() {
    let program = ">".repeat(TAPE_LEN);
    let (m, _, r) = run_program(&program, b"", TAPE_LEN + 1);
    assert_eq!(r, Err(RunError::Fault(Fault::PointerOverflow)));
    assert_eq!(m.dp(), TAPE_LEN - 1);
    assert_eq!(m.ip(), TAPE_LEN - 1);
}

#[test]
fn moves_reach_other_cells() {
    let (m, _, r) = run_program(">++>+++<", b"", 100);
    assert_eq!(r, Ok(()));
    assert_eq!(m.dp(), 1);
    assert_eq!(m.cell(1), Some(2));
    assert_eq!(m.cell(2), Some(3));
}

#[test]
fn input_exhausted_fails() {
    let (m, out, r) = run_program(".,,", b"q", 100);
    assert_eq!(r, Err(RunError::InputExhausted));
    assert_eq!(out, vec![0]);
    assert_eq!(m.ip(), 2);
    assert_eq!(m.cell(0), Some(b'q'));
}

#[test]
fn endless_loop_hits_step_limit() {
    let (_, _, r) = run_program("+[]", b"", 50);
    assert_eq!(r, Err(RunError::StepLimit));
}

#[test]
fn run_continues_where_it_stopped() {
    let mut m = Machine::new(b"+++.".to_vec()).unwrap();
    let mut out = Vec::new();
    assert_eq!(m.run(b"", 2, &mut out), Err(RunError::StepLimit));
    assert_eq!(m.cell(0), Some(2));
    assert_eq!(m.run(b"", 2, &mut out), Ok(()));
    assert_eq!(out, vec![3]);
}
