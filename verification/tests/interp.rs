use bfi::engine::Interpreter;
use bfi::opcode::{ExecFault, OpCode, ParseError, RunStatus};
use bfi::parser::{parse, parse_from};
use bfi::tape::{BfArray, ByteSource};

fn run_program(source: &[u8], input: Vec<u8>) -> (RunStatus, Vec<u8>, Interpreter) {
    let ops = parse(source).expect("program should parse");
    let mut interp = Interpreter::new(ops);
    let mut out: Vec<u8> = Vec::new();
    let mut inp = ByteSource::new(input);
    let st = interp.execute_all(&mut out, &mut inp, 10_000_000);
    (st, out, interp)
}

#[test]
fn test_hello_world() {
    let msg = b"Hello World!\n";
    let mut source: Vec<u8> = Vec::new();
    let mut cur: u8 = 0;
    for &c in msg.iter() {
        while cur != c {
            if cur < c {
                source.push(b'+');
                cur = cur.wrapping_add(1);
            } else {
                source.push(b'-');
                cur = cur.wrapping_sub(1);
            }
        }
        source.push(b'.');
    }
    let (st, out, _) = run_program(&source, Vec::new());
    assert_eq!(st, RunStatus::Halted);
    assert_eq!(out, msg.to_vec());
}

#[test]
fn bracket_free_source_parses_without_loops() {
    let program = parse(b"hello world! this text has no commands").expect("no brackets, no error");
    for op in program.iter() {
        assert!(!matches!(op, OpCode::JmpStart));
        assert!(!matches!(op, OpCode::JmpEnd));
    }
    let mixed = parse(b"a+b.c").expect("comments are transparent");
    assert_eq!(mixed, vec![OpCode::Increment, OpCode::Output]);
}

#[test]
fn all_eight_commands_parse_in_order() {
    let program = parse(b"><+-.,[]").expect("balanced");
    assert_eq!(
        program,
        vec![
            OpCode::MoveForward,
            OpCode::MoveBack,
            OpCode::Increment,
            OpCode::Decrement,
            OpCode::Output,
            OpCode::Input,
            OpCode::JmpStart,
            OpCode::JmpEnd,
        ]
    );
}

#[test]
fn loop_starts_equal_loop_ends() {
    let program = parse(b"++[>+<-]>[.-]").expect("balanced");
    let n_starts = program.iter().filter(|op| matches!(op, OpCode::JmpStart)).count();
    let n_ends = program.iter().filter(|op| matches!(op, OpCode::JmpEnd)).count();
    assert_eq!(n_starts, n_ends);
    assert_eq!(n_starts, 2);
}

#[test]
fn lone_close_bracket_is_rejected() {
    assert_eq!(parse(b"]"), Err(ParseError::UnmatchedCloseBracket));
}

#[test]
fn lone_open_bracket_is_rejected() {
    assert_eq!(parse(b"["), Err(ParseError::UnmatchedOpenBracket));
}

#[test]
fn close_bracket_wins_over_open_bracket() {
    // the stray `]` is seen during the scan, before the missing `]` of
    // the later `[` could be noticed
    assert_eq!(parse(b"]["), Err(ParseError::UnmatchedCloseBracket));
}

#[test]
fn increment_then_output_gives_one() {
    let (st, out, _) = run_program(b"+.", Vec::new());
    assert_eq!(st, RunStatus::Halted);
    assert_eq!(out, vec![0x01u8]);
}

#[test]
fn clear_loop_halts_with_zero_cell_and_empty_stack() {
    let (st, out, interp) = run_program(b"+[-]", Vec::new());
    assert_eq!(st, RunStatus::Halted);
    assert!(out.is_empty());
    assert_eq!(interp.inner.raw[0], 0x00u8);
    assert!(interp.jump_stack.is_empty());
}

#[test]
fn input_on_exhausted_source_stores_zero() {
    // the cell is first set to 1 so the zero fallback is observable
    let (st, out, interp) = run_program(b"+,", Vec::new());
    assert_eq!(st, RunStatus::Halted);
    assert!(out.is_empty());
    assert_eq!(interp.inner.raw[0], 0x00u8);
}

#[test]
fn input_bytes_are_consumed_in_order() {
    let (st, out, _) = run_program(b",.,.,.", vec![7u8, 9u8]);
    assert_eq!(st, RunStatus::Halted);
    assert_eq!(out, vec![7u8, 9u8, 0u8]);
}

#[test]
fn move_back_on_fresh_tape_faults_without_output() {
    let (st, out, _) = run_program(b"<.", Vec::new());
    assert_eq!(st, RunStatus::Faulted(ExecFault::CursorOutOfBounds));
    assert!(out.is_empty());
}

#[test]
fn move_forward_off_the_tape_faults() {
    let source = vec![b'>'; 65536];
    let (st, _, interp) = run_program(&source, Vec::new());
    assert_eq!(st, RunStatus::Faulted(ExecFault::CursorOutOfBounds));
    assert_eq!(interp.inner.pointer, 65535);
}

#[test]
fn two_increments_output_two() {
    let (st, out, _) = run_program(b"++.", Vec::new());
    assert_eq!(st, RunStatus::Halted);
    assert_eq!(out, vec![0x02u8]);
}

#[test]
fn copy_loop_moves_value_one_cell_right() {
    let (st, out, interp) = run_program(b"++[>+<-]>.", Vec::new());
    assert_eq!(st, RunStatus::Halted);
    assert_eq!(out, vec![0x02u8]);
    assert_eq!(interp.inner.pointer, 1);
}

#[test]
fn reparsing_gives_identical_programs() {
    let source = b"++[>+<-]>. comment bytes are kept out either time";
    let first = parse(source).expect("balanced");
    let second = parse(source).expect("balanced");
    assert_eq!(first, second);
}

#[test]
fn parse_from_agrees_with_parse() {
    let source: Vec<u8> = b"+[-]".to_vec();
    assert_eq!(parse_from(&source), parse(&source));
}

#[test]
fn decrement_wraps_below_zero() {
    let (st, out, _) = run_program(b"-.", Vec::new());
    assert_eq!(st, RunStatus::Halted);
    assert_eq!(out, vec![0xffu8]);
}

#[test]
fn increment_wraps_past_two_hundred_fifty_five() {
    let mut source = vec![b'+'; 256];
    source.push(b'.');
    let (st, out, _) = run_program(&source, Vec::new());
    assert_eq!(st, RunStatus::Halted);
    assert_eq!(out, vec![0x00u8]);
}

#[test]
fn zero_budget_reports_still_running() {
    let ops = parse(b"+").expect("balanced");
    let mut interp = Interpreter::new(ops);
    let mut out: Vec<u8> = Vec::new();
    let mut inp = ByteSource::new(Vec::new());
    let st = interp.execute_all(&mut out, &mut inp, 0);
    assert_eq!(st, RunStatus::Running);
    assert!(out.is_empty());
}

#[test]
fn endless_loop_exhausts_budget() {
    let ops = parse(b"+[]").expect("balanced");
    let mut interp = Interpreter::new(ops);
    let mut out: Vec<u8> = Vec::new();
    let mut inp = ByteSource::new(Vec::new());
    let st = interp.execute_all(&mut out, &mut inp, 1000);
    assert_eq!(st, RunStatus::Running);
}

#[test]
fn snapshot_shows_indices_values_and_cursor() {
    let tape = BfArray::new();
    let rendered = tape.write_array(2);
    assert_eq!(rendered, b"000000010002\n000000000000\n   ^\n".to_vec());
}

#[test]
fn snapshot_caret_follows_cursor() {
    let ops = parse(b"+>++").expect("balanced");
    let mut interp = Interpreter::new(ops);
    let mut out: Vec<u8> = Vec::new();
    let mut inp = ByteSource::new(Vec::new());
    let st = interp.execute_all(&mut out, &mut inp, 100);
    assert_eq!(st, RunStatus::Halted);
    let rendered = interp.inner.write_array(2);
    assert_eq!(rendered, b"000000010002\n000100020000\n       ^\n".to_vec());
}

#[test]
fn loop_end_without_recorded_target_faults() {
    // a well-bracketed program, but the run is started in its middle:
    // the loop end then has no recorded return target to pop
    let ops = parse(b"[]").expect("balanced");
    let mut interp = Interpreter::new(ops);
    interp.pointer = 1;
    let mut out: Vec<u8> = Vec::new();
    let mut inp = ByteSource::new(Vec::new());
    let st = interp.step(&mut out, &mut inp);
    assert_eq!(st, RunStatus::Faulted(ExecFault::JumpStackEmpty));
    assert_eq!(
        ExecFault::JumpStackEmpty.message(),
        "Jump stack exhausted".to_string()
    );
}

#[test]
fn fault_message_names_the_pointer_violation() {
    let fault = ExecFault::CursorOutOfBounds;
    assert_eq!(fault.message(), "Pointer access violation".to_string());
}
