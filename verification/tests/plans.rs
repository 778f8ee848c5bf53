use bfjit::ir::parse;
use bfjit::vm::cranelift::{compile_brainfuck_ir, ClifOp};
use bfjit::vm::llvm::{compile, LlvmOp};

fn clif_plan_of(src: &[u8]) -> Vec<ClifOp> {
    let ir = parse(&src.to_vec()).unwrap();
    compile_brainfuck_ir(&ir)
}

fn llvm_plan_of(src: &[u8]) -> Vec<LlvmOp> {
    let ir = parse(&src.to_vec()).unwrap();
    compile(&ir)
}

#[test]
fn clif_empty_program_is_prologue_and_return() {
    let ops = clif_plan_of(b"");
    assert_eq!(
        ops,
        vec![
            ClifOp::CreateBlock,
            ClifOp::AppendEntryParams,
            ClifOp::SwitchToBlock(0),
            ClifOp::SealBlock(0),
            ClifOp::DeclarePtrVar,
            ClifOp::IconstI32(0),
            ClifOp::DefVar,
            ClifOp::Return,
        ]
    );
}

#[test]
fn clif_add_emits_read_modify_write() {
    let ops = clif_plan_of(b"++");
    assert_eq!(
        ops[7..15].to_vec(),
        vec![
            ClifOp::UseVar,
            ClifOp::UextendI64,
            ClifOp::IaddTapeBase,
            ClifOp::LoadI8,
            ClifOp::UextendI32,
            ClifOp::IaddImm(2),
            ClifOp::IreduceI8,
            ClifOp::StoreI8(1, 5),
        ]
    );
    assert_eq!(ops[15], ClifOp::Return);
}

#[test]
fn clif_sub_uses_negative_immediate() {
    let ops = clif_plan_of(b"---");
    assert!(ops.contains(&ClifOp::IaddImm(-3)));
}

#[test]
fn clif_pointer_moves_update_the_variable() {
    let ops = clif_plan_of(b"><<");
    assert_eq!(
        ops[7..13].to_vec(),
        vec![
            ClifOp::UseVar,
            ClifOp::IaddImm(1),
            ClifOp::DefVar,
            ClifOp::UseVar,
            ClifOp::IaddImm(-2),
            ClifOp::DefVar,
        ]
    );
}

#[test]
fn clif_loop_lays_out_and_seals_three_blocks() {
    let ops = clif_plan_of(b"[+]");
    // Blocks 1, 2, 3 are head, body, end; the entry block is block 0.
    assert_eq!(ops[7..10].to_vec(), vec![ClifOp::CreateBlock; 3]);
    assert_eq!(ops[10], ClifOp::Jump(1));
    assert_eq!(ops[11], ClifOp::SwitchToBlock(1));
    assert_eq!(ops[16], ClifOp::UextendI32);
    assert_eq!(ops[17], ClifOp::Brif(2, 3));
    assert_eq!(ops[18], ClifOp::SwitchToBlock(2));
    // Loop body, then the back edge and the seals in creation order.
    let n = ops.len();
    assert_eq!(
        ops[n - 6..].to_vec(),
        vec![
            ClifOp::Jump(1),
            ClifOp::SwitchToBlock(3),
            ClifOp::SealBlock(1),
            ClifOp::SealBlock(2),
            ClifOp::SealBlock(3),
            ClifOp::Return,
        ]
    );
}

#[test]
fn clif_nested_loops_number_blocks_disjointly() {
    let ops = clif_plan_of(b"[[+]]");
    // Outer loop uses blocks 1..=3, inner loop blocks 4..=6.
    assert!(ops.contains(&ClifOp::Brif(2, 3)));
    assert!(ops.contains(&ClifOp::Brif(5, 6)));
    assert!(ops.contains(&ClifOp::SealBlock(6)));
}

#[test]
fn clif_io_calls_the_trampolines() {
    let ops = clif_plan_of(b".,");
    assert!(ops.contains(&ClifOp::CallPut));
    assert!(ops.contains(&ClifOp::CallGet));
}

#[test]
fn clif_dump_has_blocks_and_memory_traffic() {
    // The textual dump of any compiled program shows at least one block
    // header, and a load or store for a program that touches the tape.
    let ops = clif_plan_of(b"+");
    assert!(ops.contains(&ClifOp::CreateBlock));
    assert!(ops.contains(&ClifOp::LoadI8));
    assert!(ops.contains(&ClifOp::StoreI8(1, 5)));
}

#[test]
fn llvm_empty_program_is_prologue_and_return() {
    let ops = llvm_plan_of(b"");
    assert_eq!(
        ops,
        vec![
            LlvmOp::AppendBlock,
            LlvmOp::PositionAtEnd(0),
            LlvmOp::AllocaMem,
            LlvmOp::StoreParamMem,
            LlvmOp::AllocaIo,
            LlvmOp::StoreParamIo,
            LlvmOp::ReturnZero,
        ]
    );
}

#[test]
fn llvm_add_and_sub_are_read_modify_write() {
    let ops = llvm_plan_of(b"+-");
    assert_eq!(
        ops[6..14].to_vec(),
        vec![
            LlvmOp::LoadMemPtr,
            LlvmOp::LoadByte,
            LlvmOp::AddConst(1),
            LlvmOp::StoreByte,
            LlvmOp::LoadMemPtr,
            LlvmOp::LoadByte,
            LlvmOp::SubConst(1),
            LlvmOp::StoreByte,
        ]
    );
}

#[test]
fn llvm_pointer_moves_use_signed_displacement() {
    let ops = llvm_plan_of(b">><");
    assert!(ops.contains(&LlvmOp::Gep(2)));
    assert!(ops.contains(&LlvmOp::Gep(-1)));
}

#[test]
fn llvm_loop_checks_before_each_iteration() {
    let ops = llvm_plan_of(b"[+]");
    // Blocks 1, 2, 3 are check, body, end; on zero the branch leaves.
    assert_eq!(ops[6..9].to_vec(), vec![LlvmOp::AppendBlock; 3]);
    assert_eq!(ops[9], LlvmOp::Branch(1));
    assert_eq!(ops[10], LlvmOp::PositionAtEnd(1));
    assert_eq!(ops[13], LlvmOp::IsZero);
    assert_eq!(ops[14], LlvmOp::CondBranch(3, 2));
    assert_eq!(ops[15], LlvmOp::PositionAtEnd(2));
    let n = ops.len();
    assert_eq!(
        ops[n - 3..].to_vec(),
        vec![
            LlvmOp::Branch(1),
            LlvmOp::PositionAtEnd(3),
            LlvmOp::ReturnZero,
        ]
    );
}

#[test]
fn llvm_io_calls_the_trampolines() {
    let ops = llvm_plan_of(b",.");
    assert!(ops.contains(&LlvmOp::CallGet));
    assert!(ops.contains(&LlvmOp::CallPut));
}

#[test]
fn llvm_dump_has_blocks_and_memory_traffic() {
    let ops = llvm_plan_of(b"+");
    assert!(ops.contains(&LlvmOp::AppendBlock));
    assert!(ops.contains(&LlvmOp::LoadByte));
    assert!(ops.contains(&LlvmOp::StoreByte));
}
