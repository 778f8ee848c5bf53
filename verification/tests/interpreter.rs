use bfjit::ir::parse;
use bfjit::vm::{RuntimeError, VMInterface, VM};

fn run_program(src: &[u8], input: &[u8]) -> (Result<(), RuntimeError>, Vec<u8>) {
    let ir = parse(&src.to_vec()).unwrap();
    let mut vm = VM::new(ir, input.to_vec()).unwrap();
    let r = vm.run();
    let out = vm.output().clone();
    (r, out)
}

#[test]
fn hello_world() {
    let src = b"++++++++[>++++[>++>+++>+++>+<<<<-]>+>+>->>+[<]<-]>>.>---.+++++++..+++.>>.<-.<.+++.------.--------.>>+.>++.";
    let (r, out) = run_program(src, b"");
    assert_eq!(r, Ok(()));
    assert_eq!(out, b"Hello World!\n".to_vec());
}

#[test]
fn empty_program_writes_nothing() {
    let (r, out) = run_program(b" just a comment ", b"ignored");
    assert_eq!(r, Ok(()));
    assert!(out.is_empty());
}

#[test]
fn echo_three_bytes() {
    let (r, out) = run_program(b",.,.,.", b"abc");
    assert_eq!(r, Ok(()));
    assert_eq!(out, b"abc".to_vec());
}

#[test]
fn echo_with_terminator() {
    // The loop re-enters after the 0x00 sentinel is read and incremented to
    // 1, so the decrement writes the sentinel through and the next read
    // finds the input exhausted.
    let (r, out) = run_program(b",+[-.,+]", &[0x48, 0x69, 0x0A, 0x00]);
    assert_eq!(out, vec![0x48, 0x69, 0x0A, 0x00]);
    assert_eq!(r, Err(RuntimeError::IO));
}

#[test]
fn cell_wrap_to_zero_terminates() {
    let (r, out) = run_program(b"+[+]", b"");
    assert_eq!(r, Ok(()));
    assert!(out.is_empty());
}

#[test]
fn wrapping_256_increments_returns_to_zero() {
    let mut src = vec![b'+'; 256];
    src.push(b'.');
    let (r, out) = run_program(&src, b"");
    assert_eq!(r, Ok(()));
    assert_eq!(out, vec![0]);
}

#[test]
fn nested_loops_multiply() {
    let (r, out) = run_program(b"++>+++<[>[->+>+<<]>>[-<<+>>]<<<-]>>.", b"");
    assert_eq!(r, Ok(()));
    assert_eq!(out, vec![6]);
}

#[test]
fn pointer_underflow_is_overflow_error() {
    let (r, out) = run_program(b"<", b"");
    assert_eq!(r, Err(RuntimeError::Overflow));
    assert!(out.is_empty());
}

#[test]
fn pointer_move_right_stays_in_bounds() {
    let (r, out) = run_program(b">+.<.", b"");
    assert_eq!(r, Ok(()));
    assert_eq!(out, vec![1, 0]);
}

#[test]
fn read_past_end_of_input_is_io_error() {
    let (r, out) = run_program(b",.,.", b"x");
    assert_eq!(out, b"x".to_vec());
    assert_eq!(r, Err(RuntimeError::IO));
}

#[test]
fn subtraction_wraps_below_zero() {
    let (r, out) = run_program(b"-.", b"");
    assert_eq!(r, Ok(()));
    assert_eq!(out, vec![0xFF]);
}

#[test]
fn tape_isolation_neighbour_cells_unchanged() {
    // Writes to cell 1 leave cells 0 and 2 as they were.
    let (r, out) = run_program(b"+>+++++>++<<.>.>.", b"");
    assert_eq!(r, Ok(()));
    assert_eq!(out, vec![1, 5, 2]);
}

#[test]
fn zero_count_instructions_are_tolerated() {
    // A run of 256 `+` folds to a zero count, which every executor treats
    // as a no-op.
    let mut src = vec![b'+'; 256];
    src.push(b'.');
    src.extend_from_slice(&[b'+', b'.']);
    let (r, out) = run_program(&src, b"");
    assert_eq!(r, Ok(()));
    assert_eq!(out, vec![0, 1]);
}

#[test]
fn loop_zero_on_entry_skips_body() {
    let (r, out) = run_program(b"[.-]+.", b"");
    assert_eq!(r, Ok(()));
    assert_eq!(out, vec![1]);
}
