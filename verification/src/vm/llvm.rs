//! Code generation for the optimizing JIT back end.
//!
//! As with the lightweight back end, the verified part produces the complete
//! sequence of emission steps for a program: typed loads and stores through
//! the two pointer-typed locals, indexed address computations for pointer
//! moves, block layout and branch targets.  An unverified shim replays the
//! steps on the back end's builder, binds the I/O trampolines and hands the
//! module to the optimizer; it makes no decision of its own.

use crate::ir::{blocks_block, blocks_instr, lemma_view_block, view_block, view_ir, BrainfuckIR, Ir};
use vstd::prelude::*;

verus! {

/// One emission step for the optimizing back end.
///
/// Values are numbered in order of creation; a step that uses an earlier
/// value always uses the most recent ones, as noted on each variant.  The
/// two pointer-typed locals (the current tape position and the I/O context)
/// are named directly.  Basic blocks are numbered in order of creation.
#[derive(Debug, Clone, Copy, PartialEq, Eq, Structural)]
pub enum LlvmOp {
    /// Allocate the pointer-typed local holding the current tape position.
    AllocaMem,
    /// Allocate the pointer-typed local holding the I/O context.
    AllocaIo,
    /// Store the tape-base parameter into the tape-position local.
    StoreParamMem,
    /// Store the I/O-context parameter into the I/O local.
    StoreParamIo,
    /// Load the current tape position from its local; a new value.
    LoadMemPtr,
    /// Load the I/O context from its local; a new value.
    LoadIo,
    /// Load a byte through the most recent value; a new value.
    LoadByte,
    /// Add a constant to the most recent value (byte-typed); a new value.
    AddConst(u8),
    /// Subtract a constant from the most recent value; a new value.
    SubConst(u8),
    /// Store a byte: the most recent value, through the pointer produced
    /// three values back.
    StoreByte,
    /// Store the most recent value into the tape-position local.
    StoreMemPtr,
    /// Indexed address computation: the most recent value offset by a
    /// signed displacement; a new value.
    Gep(i64),
    /// Call the imported `bf_put` with the I/O context (most recent value)
    /// and the byte loaded two values back.
    CallPut,
    /// Call the imported `bf_get` with the I/O context (most recent
    /// value); its result is a new value.
    CallGet,
    /// Compare the most recent value against zero; a new value.
    IsZero,
    /// Append a new basic block to the function.
    AppendBlock,
    /// Unconditional branch to the given block.
    Branch(usize),
    /// Branch on the most recent value: first block if it was zero, second
    /// otherwise.
    CondBranch(usize, usize),
    /// Continue emission at the end of the given block.
    PositionAtEnd(usize),
    /// Return the constant zero the ABI asks for.
    ReturnZero,
}

/// The emission steps for one instruction, with `b` blocks already created.
pub open spec fn llvm_instr_ops(node: Ir, b: nat) -> Seq<LlvmOp>
    decreases node,
{
    match node {
        Ir::AddVal(n) => seq![
            LlvmOp::LoadMemPtr,
            LlvmOp::LoadByte,
            LlvmOp::AddConst(n),
            LlvmOp::StoreByte,
        ],
        Ir::SubVal(n) => seq![
            LlvmOp::LoadMemPtr,
            LlvmOp::LoadByte,
            LlvmOp::SubConst(n),
            LlvmOp::StoreByte,
        ],
        Ir::PtrMovRight(n) => seq![
            LlvmOp::LoadMemPtr,
            LlvmOp::Gep(n as i64),
            LlvmOp::StoreMemPtr,
        ],
        Ir::PtrMovLeft(n) => seq![
            LlvmOp::LoadMemPtr,
            LlvmOp::Gep((-(n as int)) as i64),
            LlvmOp::StoreMemPtr,
        ],
        Ir::PutByte => seq![
            LlvmOp::LoadMemPtr,
            LlvmOp::LoadByte,
            LlvmOp::LoadIo,
            LlvmOp::CallPut,
        ],
        Ir::GetByte => seq![
            LlvmOp::LoadMemPtr,
            LlvmOp::LoadIo,
            LlvmOp::CallGet,
            LlvmOp::StoreByte,
        ],
        Ir::Loop(body) => seq![
            LlvmOp::AppendBlock,
            LlvmOp::AppendBlock,
            LlvmOp::AppendBlock,
            LlvmOp::Branch(b as usize),
            LlvmOp::PositionAtEnd(b as usize),
            LlvmOp::LoadMemPtr,
            LlvmOp::LoadByte,
            LlvmOp::IsZero,
            LlvmOp::CondBranch((b + 2) as usize, (b + 1) as usize),
            LlvmOp::PositionAtEnd((b + 1) as usize),
        ] + llvm_block_ops(body, b + 3) + seq![
            LlvmOp::Branch(b as usize),
            LlvmOp::PositionAtEnd((b + 2) as usize),
        ],
    }
}

/// The emission steps for a block of instructions, in order.
pub open spec fn llvm_block_ops(prog: Seq<Ir>, b: nat) -> Seq<LlvmOp>
    decreases prog,
{
    if prog.len() == 0 {
        Seq::empty()
    } else {
        llvm_instr_ops(prog[0], b) + llvm_block_ops(
            prog.subrange(1, prog.len() as int),
            b + blocks_instr(prog[0]),
        )
    }
}

/// The complete emission plan for a program: the entry block, the two
/// pointer-typed locals seeded from the function parameters, the program
/// body, and the constant-zero return.
pub open spec fn llvm_plan(prog: Seq<Ir>) -> Seq<LlvmOp> {
    seq![
        LlvmOp::AppendBlock,
        LlvmOp::PositionAtEnd(0),
        LlvmOp::AllocaMem,
        LlvmOp::StoreParamMem,
        LlvmOp::AllocaIo,
        LlvmOp::StoreParamIo,
    ] + llvm_block_ops(prog, 1) + seq![LlvmOp::ReturnZero]
}

/// How many blocks one emission step creates.
pub open spec fn llvm_creates(op: LlvmOp) -> nat {
    if op is AppendBlock {
        1
    } else {
        0
    }
}

/// Whether one emission step names only blocks among the `nb` already
/// created.
pub open spec fn llvm_op_blocks_ok(op: LlvmOp, nb: nat) -> bool {
    match op {
        LlvmOp::Branch(b) => b < nb,
        LlvmOp::CondBranch(b1, b2) => b1 < nb && b2 < nb,
        LlvmOp::PositionAtEnd(b) => b < nb,
        _ => true,
    }
}

/// Whether every step of a plan names only blocks created before it,
/// starting from `nb` already-created blocks.
pub open spec fn llvm_blocks_ok(ops: Seq<LlvmOp>, nb: nat) -> bool
    decreases ops.len(),
{
    ops.len() == 0 || (llvm_op_blocks_ok(ops[0], nb) && llvm_blocks_ok(
        ops.subrange(1, ops.len() as int),
        nb + llvm_creates(ops[0]),
    ))
}

/// How many blocks a whole plan creates.
pub open spec fn llvm_creates_all(ops: Seq<LlvmOp>) -> nat
    decreases ops.len(),
{
    if ops.len() == 0 {
        0
    } else {
        llvm_creates(ops[0]) + llvm_creates_all(ops.subrange(1, ops.len() as int))
    }
}

/// Step-by-step block safety splits over concatenation.
proof fn lemma_llvm_blocks_ok_concat(a: Seq<LlvmOp>, c: Seq<LlvmOp>, nb: nat)
    ensures
        llvm_blocks_ok(a + c, nb) <==> (llvm_blocks_ok(a, nb) && llvm_blocks_ok(
            c,
            nb + llvm_creates_all(a),
        )),
    decreases a.len(),
{
    if a.len() == 0 {
        assert(a + c =~= c);
    } else {
        assert((a + c).subrange(1, (a + c).len() as int) =~= a.subrange(1, a.len() as int) + c);
        lemma_llvm_blocks_ok_concat(a.subrange(1, a.len() as int), c, nb + llvm_creates(a[0]));
    }
}

/// Block counts add up over concatenation.
proof fn lemma_llvm_creates_concat(a: Seq<LlvmOp>, c: Seq<LlvmOp>)
    ensures
        llvm_creates_all(a + c) == llvm_creates_all(a) + llvm_creates_all(c),
    decreases a.len(),
{
    if a.len() == 0 {
        assert(a + c =~= c);
    } else {
        assert((a + c).subrange(1, (a + c).len() as int) =~= a.subrange(1, a.len() as int) + c);
        lemma_llvm_creates_concat(a.subrange(1, a.len() as int), c);
    }
}

/// The emission plan for one instruction creates exactly its loops' blocks.
#[verifier::rlimit(100)]
proof fn lemma_llvm_instr_creates(node: Ir, b: nat)
    ensures
        llvm_creates_all(llvm_instr_ops(node, b)) == blocks_instr(node),
    decreases node, 0nat,
{
    reveal_with_fuel(llvm_creates_all, 15);
    match node {
        Ir::Loop(body) => {
            let pre = seq![
                LlvmOp::AppendBlock,
                LlvmOp::AppendBlock,
                LlvmOp::AppendBlock,
                LlvmOp::Branch(b as usize),
                LlvmOp::PositionAtEnd(b as usize),
                LlvmOp::LoadMemPtr,
                LlvmOp::LoadByte,
                LlvmOp::IsZero,
                LlvmOp::CondBranch((b + 2) as usize, (b + 1) as usize),
                LlvmOp::PositionAtEnd((b + 1) as usize),
            ];
            let mid = llvm_block_ops(body, b + 3);
            let post = seq![LlvmOp::Branch(b as usize), LlvmOp::PositionAtEnd((b + 2) as usize)];
            assert(llvm_instr_ops(node, b) =~= pre + (mid + post));
            lemma_llvm_creates_concat(pre, mid + post);
            lemma_llvm_creates_concat(mid, post);
            lemma_llvm_block_creates(body, b + 3);
            assert(llvm_creates_all(pre) == 3);
            assert(llvm_creates_all(post) == 0);
        },
        _ => {},
    }
}

/// The emission plan for a block creates exactly its loops' blocks.
proof fn lemma_llvm_block_creates(prog: Seq<Ir>, b: nat)
    ensures
        llvm_creates_all(llvm_block_ops(prog, b)) == blocks_block(prog),
    decreases prog, 1nat,
{
    if prog.len() != 0 {
        lemma_llvm_instr_creates(prog[0], b);
        lemma_llvm_block_creates(prog.subrange(1, prog.len() as int), b + blocks_instr(prog[0]));
        lemma_llvm_creates_concat(
            llvm_instr_ops(prog[0], b),
            llvm_block_ops(prog.subrange(1, prog.len() as int), b + blocks_instr(prog[0])),
        );
    }
}

/// Every step of one instruction's plan names only blocks created before
/// it.
#[verifier::rlimit(100)]
proof fn lemma_llvm_instr_blocks_ok(node: Ir, b: nat)
    ensures
        llvm_blocks_ok(llvm_instr_ops(node, b), b),
    decreases node, 0nat,
{
    reveal_with_fuel(llvm_blocks_ok, 15);
    match node {
        Ir::Loop(body) => {
            let pre = seq![
                LlvmOp::AppendBlock,
                LlvmOp::AppendBlock,
                LlvmOp::AppendBlock,
                LlvmOp::Branch(b as usize),
                LlvmOp::PositionAtEnd(b as usize),
                LlvmOp::LoadMemPtr,
                LlvmOp::LoadByte,
                LlvmOp::IsZero,
                LlvmOp::CondBranch((b + 2) as usize, (b + 1) as usize),
                LlvmOp::PositionAtEnd((b + 1) as usize),
            ];
            let mid = llvm_block_ops(body, b + 3);
            let post = seq![LlvmOp::Branch(b as usize), LlvmOp::PositionAtEnd((b + 2) as usize)];
            assert(llvm_instr_ops(node, b) =~= pre + (mid + post));
            lemma_llvm_block_blocks_ok(body, b + 3);
            lemma_llvm_block_creates(body, b + 3);
            lemma_llvm_blocks_ok_concat(mid, post, b + 3);
            assert(llvm_blocks_ok(pre, b));
            assert(llvm_creates_all(pre) == 3) by {
                reveal_with_fuel(llvm_creates_all, 15);
            }
            lemma_llvm_blocks_ok_concat(pre, mid + post, b);
        },
        _ => {},
    }
}

/// Every step of a block's plan names only blocks created before it.
proof fn lemma_llvm_block_blocks_ok(prog: Seq<Ir>, b: nat)
    ensures
        llvm_blocks_ok(llvm_block_ops(prog, b), b),
    decreases prog, 1nat,
{
    if prog.len() != 0 {
        let rest = prog.subrange(1, prog.len() as int);
        lemma_llvm_instr_blocks_ok(prog[0], b);
        lemma_llvm_instr_creates(prog[0], b);
        lemma_llvm_block_blocks_ok(rest, b + blocks_instr(prog[0]));
        lemma_llvm_blocks_ok_concat(llvm_instr_ops(prog[0], b), llvm_block_ops(
            rest,
            b + blocks_instr(prog[0]),
        ), b);
    }
}

/// The whole plan is block-safe: every step that names a basic block —
/// a branch, a conditional branch or a repositioning of the builder —
/// names one that an earlier step created.  The shim that replays the plan
/// on the back end's builder therefore never looks up a block it has not
/// yet made.
pub proof fn lemma_llvm_plan_blocks_ok(prog: Seq<Ir>)
    ensures
        llvm_blocks_ok(llvm_plan(prog), 0),
{
    reveal_with_fuel(llvm_blocks_ok, 10);
    reveal_with_fuel(llvm_creates_all, 10);
    let pre = seq![
        LlvmOp::AppendBlock,
        LlvmOp::PositionAtEnd(0),
        LlvmOp::AllocaMem,
        LlvmOp::StoreParamMem,
        LlvmOp::AllocaIo,
        LlvmOp::StoreParamIo,
    ];
    let post = seq![LlvmOp::ReturnZero];
    assert(llvm_plan(prog) =~= pre + (llvm_block_ops(prog, 1) + post));
    lemma_llvm_block_blocks_ok(prog, 1);
    lemma_llvm_block_creates(prog, 1);
    lemma_llvm_blocks_ok_concat(llvm_block_ops(prog, 1), post, 1);
    assert(llvm_blocks_ok(pre, 0));
    assert(llvm_creates_all(pre) == 1);
    lemma_llvm_blocks_ok_concat(pre, llvm_block_ops(prog, 1) + post, 0);
}

/// How many values one emission step produces.
pub open spec fn llvm_vals(op: LlvmOp) -> nat {
    match op {
        LlvmOp::LoadMemPtr => 1,
        LlvmOp::LoadIo => 1,
        LlvmOp::LoadByte => 1,
        LlvmOp::AddConst(_) => 1,
        LlvmOp::SubConst(_) => 1,
        LlvmOp::Gep(_) => 1,
        LlvmOp::CallGet => 1,
        LlvmOp::IsZero => 1,
        _ => 0,
    }
}

/// Whether one emission step reaches back only to values among the `nv`
/// already produced.
pub open spec fn llvm_op_vals_ok(op: LlvmOp, nv: nat) -> bool {
    match op {
        LlvmOp::LoadByte => nv >= 1,
        LlvmOp::AddConst(_) => nv >= 1,
        LlvmOp::SubConst(_) => nv >= 1,
        LlvmOp::StoreByte => nv >= 3,
        LlvmOp::StoreMemPtr => nv >= 1,
        LlvmOp::Gep(_) => nv >= 1,
        LlvmOp::CallPut => nv >= 2,
        LlvmOp::CallGet => nv >= 1,
        LlvmOp::IsZero => nv >= 1,
        LlvmOp::CondBranch(_, _) => nv >= 1,
        _ => true,
    }
}

/// Whether every step of a plan reaches back only to values produced
/// before it, starting from `nv` already-produced values.
pub open spec fn llvm_vals_ok(ops: Seq<LlvmOp>, nv: nat) -> bool
    decreases ops.len(),
{
    ops.len() == 0 || (llvm_op_vals_ok(ops[0], nv) && llvm_vals_ok(
        ops.subrange(1, ops.len() as int),
        nv + llvm_vals(ops[0]),
    ))
}

/// How many values a whole plan produces.
pub open spec fn llvm_vals_all(ops: Seq<LlvmOp>) -> nat
    decreases ops.len(),
{
    if ops.len() == 0 {
        0
    } else {
        llvm_vals(ops[0]) + llvm_vals_all(ops.subrange(1, ops.len() as int))
    }
}

/// How many values one instruction's plan produces.
pub open spec fn llvm_vals_instr(node: Ir) -> nat
    decreases node,
{
    match node {
        Ir::AddVal(_) => 3,
        Ir::SubVal(_) => 3,
        Ir::PtrMovRight(_) => 2,
        Ir::PtrMovLeft(_) => 2,
        Ir::PutByte => 3,
        Ir::GetByte => 3,
        Ir::Loop(body) => 3 + llvm_vals_block(body),
    }
}

/// How many values a block's plan produces.
pub open spec fn llvm_vals_block(prog: Seq<Ir>) -> nat
    decreases prog,
{
    if prog.len() == 0 {
        0
    } else {
        llvm_vals_instr(prog[0]) + llvm_vals_block(prog.subrange(1, prog.len() as int))
    }
}

/// Step-by-step value safety splits over concatenation.
proof fn lemma_llvm_vals_ok_concat(a: Seq<LlvmOp>, c: Seq<LlvmOp>, nv: nat)
    ensures
        llvm_vals_ok(a + c, nv) <==> (llvm_vals_ok(a, nv) && llvm_vals_ok(
            c,
            nv + llvm_vals_all(a),
        )),
    decreases a.len(),
{
    if a.len() == 0 {
        assert(a + c =~= c);
    } else {
        assert((a + c).subrange(1, (a + c).len() as int) =~= a.subrange(1, a.len() as int) + c);
        lemma_llvm_vals_ok_concat(a.subrange(1, a.len() as int), c, nv + llvm_vals(a[0]));
    }
}

/// Value counts add up over concatenation.
proof fn lemma_llvm_vals_concat(a: Seq<LlvmOp>, c: Seq<LlvmOp>)
    ensures
        llvm_vals_all(a + c) == llvm_vals_all(a) + llvm_vals_all(c),
    decreases a.len(),
{
    if a.len() == 0 {
        assert(a + c =~= c);
    } else {
        assert((a + c).subrange(1, (a + c).len() as int) =~= a.subrange(1, a.len() as int) + c);
        lemma_llvm_vals_concat(a.subrange(1, a.len() as int), c);
    }
}

/// The emission plan for one instruction produces exactly its values.
#[verifier::rlimit(100)]
proof fn lemma_llvm_instr_vals(node: Ir, b: nat)
    ensures
        llvm_vals_all(llvm_instr_ops(node, b)) == llvm_vals_instr(node),
    decreases node, 0nat,
{
    reveal_with_fuel(llvm_vals_all, 15);
    match node {
        Ir::Loop(body) => {
            let pre = seq![
                LlvmOp::AppendBlock,
                LlvmOp::AppendBlock,
                LlvmOp::AppendBlock,
                LlvmOp::Branch(b as usize),
                LlvmOp::PositionAtEnd(b as usize),
                LlvmOp::LoadMemPtr,
                LlvmOp::LoadByte,
                LlvmOp::IsZero,
                LlvmOp::CondBranch((b + 2) as usize, (b + 1) as usize),
                LlvmOp::PositionAtEnd((b + 1) as usize),
            ];
            let mid = llvm_block_ops(body, b + 3);
            let post = seq![LlvmOp::Branch(b as usize), LlvmOp::PositionAtEnd((b + 2) as usize)];
            assert(llvm_instr_ops(node, b) =~= pre + (mid + post));
            lemma_llvm_vals_concat(pre, mid + post);
            lemma_llvm_vals_concat(mid, post);
            lemma_llvm_block_vals(body, b + 3);
            assert(llvm_vals_all(pre) == 3);
            assert(llvm_vals_all(post) == 0);
        },
        _ => {},
    }
}

/// The emission plan for a block produces exactly its values.
proof fn lemma_llvm_block_vals(prog: Seq<Ir>, b: nat)
    ensures
        llvm_vals_all(llvm_block_ops(prog, b)) == llvm_vals_block(prog),
    decreases prog, 1nat,
{
    if prog.len() != 0 {
        lemma_llvm_instr_vals(prog[0], b);
        lemma_llvm_block_vals(prog.subrange(1, prog.len() as int), b + blocks_instr(prog[0]));
        lemma_llvm_vals_concat(
            llvm_instr_ops(prog[0], b),
            llvm_block_ops(prog.subrange(1, prog.len() as int), b + blocks_instr(prog[0])),
        );
    }
}

/// Every step of one instruction's plan reaches back only to values
/// produced before it.
#[verifier::rlimit(100)]
proof fn lemma_llvm_instr_vals_ok(node: Ir, b: nat, nv: nat)
    ensures
        llvm_vals_ok(llvm_instr_ops(node, b), nv),
    decreases node, 0nat,
{
    reveal_with_fuel(llvm_vals_ok, 15);
    match node {
        Ir::Loop(body) => {
            let pre = seq![
                LlvmOp::AppendBlock,
                LlvmOp::AppendBlock,
                LlvmOp::AppendBlock,
                LlvmOp::Branch(b as usize),
                LlvmOp::PositionAtEnd(b as usize),
                LlvmOp::LoadMemPtr,
                LlvmOp::LoadByte,
                LlvmOp::IsZero,
                LlvmOp::CondBranch((b + 2) as usize, (b + 1) as usize),
                LlvmOp::PositionAtEnd((b + 1) as usize),
            ];
            let mid = llvm_block_ops(body, b + 3);
            let post = seq![LlvmOp::Branch(b as usize), LlvmOp::PositionAtEnd((b + 2) as usize)];
            assert(llvm_instr_ops(node, b) =~= pre + (mid + post));
            lemma_llvm_block_vals_ok(body, b + 3, nv + 3);
            lemma_llvm_vals_ok_concat(mid, post, nv + 3);
            assert(llvm_vals_ok(pre, nv));
            assert(llvm_vals_all(pre) == 3) by {
                reveal_with_fuel(llvm_vals_all, 15);
            }
            lemma_llvm_vals_ok_concat(pre, mid + post, nv);
        },
        _ => {},
    }
}

/// Every step of a block's plan reaches back only to values produced
/// before it.
proof fn lemma_llvm_block_vals_ok(prog: Seq<Ir>, b: nat, nv: nat)
    ensures
        llvm_vals_ok(llvm_block_ops(prog, b), nv),
    decreases prog, 1nat,
{
    if prog.len() != 0 {
        let rest = prog.subrange(1, prog.len() as int);
        lemma_llvm_instr_vals_ok(prog[0], b, nv);
        lemma_llvm_instr_vals(prog[0], b);
        lemma_llvm_block_vals_ok(rest, b + blocks_instr(prog[0]), nv + llvm_vals_instr(prog[0]));
        lemma_llvm_vals_ok_concat(llvm_instr_ops(prog[0], b), llvm_block_ops(
            rest,
            b + blocks_instr(prog[0]),
        ), nv);
    }
}

/// The whole plan is value-safe: every step that reaches back — a load
/// through a just-computed pointer, a store, a call argument, a branch
/// condition — reaches a value an earlier step produced.  The shim that
/// replays the plan therefore never looks up a value it has not yet made.
pub proof fn lemma_llvm_plan_vals_ok(prog: Seq<Ir>)
    ensures
        llvm_vals_ok(llvm_plan(prog), 0),
{
    reveal_with_fuel(llvm_vals_ok, 10);
    reveal_with_fuel(llvm_vals_all, 10);
    let pre = seq![
        LlvmOp::AppendBlock,
        LlvmOp::PositionAtEnd(0),
        LlvmOp::AllocaMem,
        LlvmOp::StoreParamMem,
        LlvmOp::AllocaIo,
        LlvmOp::StoreParamIo,
    ];
    let post = seq![LlvmOp::ReturnZero];
    assert(llvm_plan(prog) =~= pre + (llvm_block_ops(prog, 1) + post));
    lemma_llvm_block_vals_ok(prog, 1, 0);
    lemma_llvm_block_vals(prog, 1);
    lemma_llvm_vals_ok_concat(llvm_block_ops(prog, 1), post, 0);
    assert(llvm_vals_ok(pre, 0));
    assert(llvm_vals_all(pre) == 0);
    lemma_llvm_vals_ok_concat(pre, llvm_block_ops(prog, 1) + post, 0);
}

/// A `Vec`'s length always fits in `usize`.
proof fn lemma_vec_len_bound<T>(v: &Vec<T>)
    ensures
        v@.len() <= usize::MAX,
{
    vstd::std_specs::vec::axiom_spec_len(v);
}

/// Emit the steps for one block of instructions onto the end of `ops`.
#[verifier::loop_isolation(false)]
#[verifier::rlimit(100)]
fn compile_block(ops: &mut Vec<LlvmOp>, ir_block: &Vec<BrainfuckIR>, nb: usize) -> (r: usize)
    requires
        nb as int <= old(ops)@.len() + 1,
    ensures
        final(ops)@ == old(ops)@ + llvm_block_ops(view_block(ir_block@), nb as nat),
        r as int == nb + blocks_block(view_block(ir_block@)),
        r as int <= final(ops)@.len() + 1,
    decreases ir_block@, 1nat,
{
    broadcast use lemma_view_block;

    let ghost prog = view_block(ir_block@);
    let ghost ops0 = ops@;
    let n = ir_block.len();
    let mut pc: usize = 0;
    let mut nbc: usize = nb;
    proof {
        assert(prog.subrange(0, prog.len() as int) =~= prog);
    }
    while pc < n
        invariant
            pc <= n,
            nbc as int <= ops@.len() + 1,
            ops0 + llvm_block_ops(prog, nb as nat) == ops@ + llvm_block_ops(
                prog.subrange(pc as int, prog.len() as int),
                nbc as nat,
            ),
            nbc + blocks_block(prog.subrange(pc as int, prog.len() as int)) == nb
                + blocks_block(prog),
        decreases n - pc,
    {
        let ghost rest = prog.subrange(pc as int, prog.len() as int);
        let ghost opsc = ops@;
        let ghost nbc0 = nbc;
        proof {
            assert(rest[0] == view_ir(ir_block@[pc as int]));
            assert(rest.subrange(1, rest.len() as int) =~= prog.subrange(
                pc as int + 1,
                prog.len() as int,
            ));
            assert(decreases_to!(ir_block@ => ir_block@[pc as int]));
        }
        nbc = compile_instruction(ops, &ir_block[pc], nbc);
        proof {
            if !(rest[0] matches Ir::Loop(_)) {
                assert(blocks_instr(rest[0]) == 0);
            }
            assert(nbc as int == nbc0 + blocks_instr(rest[0]));
            assert(llvm_block_ops(rest, nbc0 as nat) == llvm_instr_ops(rest[0], nbc0 as nat)
                + llvm_block_ops(rest.subrange(1, rest.len() as int), nbc as nat));
            assert(ops0 + llvm_block_ops(prog, nb as nat) =~= ops@ + llvm_block_ops(
                prog.subrange(pc as int + 1, prog.len() as int),
                nbc as nat,
            ));
        }
        pc = pc + 1;
    }
    proof {
        assert(prog.subrange(n as int, prog.len() as int).len() == 0);
        assert(ops0 + llvm_block_ops(prog, nb as nat) =~= ops@);
    }
    nbc
}

/// Emit the steps for one instruction onto the end of `ops`.
///
/// `nb` is the number of basic blocks created so far; the result is the
/// count after this instruction's loops.
#[verifier::loop_isolation(false)]
#[verifier::rlimit(100)]
pub fn compile_instruction(ops: &mut Vec<LlvmOp>, node: &BrainfuckIR, nb: usize) -> (r: usize)
    requires
        nb as int <= old(ops)@.len() + 1,
    ensures
        final(ops)@ == old(ops)@ + llvm_instr_ops(view_ir(*node), nb as nat),
        r as int == nb + blocks_instr(view_ir(*node)),
        r as int <= final(ops)@.len() + 1,
    decreases *node, 0nat,
{
    let ghost opsc = ops@;
    match node {
        BrainfuckIR::AddVal(v) => {
            ops.push(LlvmOp::LoadMemPtr);
            ops.push(LlvmOp::LoadByte);
            ops.push(LlvmOp::AddConst(*v));
            ops.push(LlvmOp::StoreByte);
            proof {
                assert(ops@ =~= opsc + llvm_instr_ops(view_ir(*node), nb as nat));
            }
            nb
        },
        BrainfuckIR::SubVal(v) => {
            ops.push(LlvmOp::LoadMemPtr);
            ops.push(LlvmOp::LoadByte);
            ops.push(LlvmOp::SubConst(*v));
            ops.push(LlvmOp::StoreByte);
            proof {
                assert(ops@ =~= opsc + llvm_instr_ops(view_ir(*node), nb as nat));
            }
            nb
        },
        BrainfuckIR::PtrMovRight(v) => {
            ops.push(LlvmOp::LoadMemPtr);
            ops.push(LlvmOp::Gep(*v as i64));
            ops.push(LlvmOp::StoreMemPtr);
            proof {
                assert(ops@ =~= opsc + llvm_instr_ops(view_ir(*node), nb as nat));
            }
            nb
        },
        BrainfuckIR::PtrMovLeft(v) => {
            ops.push(LlvmOp::LoadMemPtr);
            ops.push(LlvmOp::Gep(-(*v as i64)));
            ops.push(LlvmOp::StoreMemPtr);
            proof {
                assert(ops@ =~= opsc + llvm_instr_ops(view_ir(*node), nb as nat));
            }
            nb
        },
        BrainfuckIR::PutByte => {
            ops.push(LlvmOp::LoadMemPtr);
            ops.push(LlvmOp::LoadByte);
            ops.push(LlvmOp::LoadIo);
            ops.push(LlvmOp::CallPut);
            proof {
                assert(ops@ =~= opsc + llvm_instr_ops(view_ir(*node), nb as nat));
            }
            nb
        },
        BrainfuckIR::GetByte => {
            ops.push(LlvmOp::LoadMemPtr);
            ops.push(LlvmOp::LoadIo);
            ops.push(LlvmOp::CallGet);
            ops.push(LlvmOp::StoreByte);
            proof {
                assert(ops@ =~= opsc + llvm_instr_ops(view_ir(*node), nb as nat));
            }
            nb
        },
        BrainfuckIR::Loop(body) => {
            ops.push(LlvmOp::AppendBlock);
            ops.push(LlvmOp::AppendBlock);
            ops.push(LlvmOp::AppendBlock);
            proof {
                lemma_vec_len_bound(ops);
            }
            let check = nb;
            let bodyb = nb + 1;
            let endb = nb + 2;
            ops.push(LlvmOp::Branch(check));
            ops.push(LlvmOp::PositionAtEnd(check));
            ops.push(LlvmOp::LoadMemPtr);
            ops.push(LlvmOp::LoadByte);
            ops.push(LlvmOp::IsZero);
            ops.push(LlvmOp::CondBranch(endb, bodyb));
            ops.push(LlvmOp::PositionAtEnd(bodyb));
            let ghost seg1 = ops@;
            proof {
                lemma_vec_len_bound(ops);
                assert(decreases_to!(*node => (*node)->Loop_0));
                assert(decreases_to!((*node)->Loop_0 => (*node)->Loop_0@));
            }
            let nb2 = compile_block(ops, body, endb + 1);
            ops.push(LlvmOp::Branch(check));
            ops.push(LlvmOp::PositionAtEnd(endb));
            proof {
                assert(seg1 =~= opsc + seq![
                    LlvmOp::AppendBlock,
                    LlvmOp::AppendBlock,
                    LlvmOp::AppendBlock,
                    LlvmOp::Branch(check),
                    LlvmOp::PositionAtEnd(check),
                    LlvmOp::LoadMemPtr,
                    LlvmOp::LoadByte,
                    LlvmOp::IsZero,
                    LlvmOp::CondBranch(endb, bodyb),
                    LlvmOp::PositionAtEnd(bodyb),
                ]);
                assert(ops@ =~= seg1 + llvm_block_ops(view_block(body@), (nb + 3) as nat)
                    + seq![LlvmOp::Branch(check), LlvmOp::PositionAtEnd(endb)]);
                assert(ops@ =~= opsc + llvm_instr_ops(view_ir(*node), nb as nat));
            }
            nb2
        },
    }
}

/// Build the complete emission plan for a program: the entry block, the
/// pointer-typed locals seeded from the parameters, the body, and the
/// constant-zero return.
pub fn compile(ir: &Vec<BrainfuckIR>) -> (ops: Vec<LlvmOp>)
    ensures
        ops@ == llvm_plan(view_block(ir@)),
{
    let mut ops: Vec<LlvmOp> = Vec::new();
    ops.push(LlvmOp::AppendBlock);
    ops.push(LlvmOp::PositionAtEnd(0));
    ops.push(LlvmOp::AllocaMem);
    ops.push(LlvmOp::StoreParamMem);
    ops.push(LlvmOp::AllocaIo);
    ops.push(LlvmOp::StoreParamIo);
    let _ = compile_block(&mut ops, ir, 1);
    ops.push(LlvmOp::ReturnZero);
    proof {
        assert(ops@ =~= llvm_plan(view_block(ir@)));
    }
    ops
}

} // verus!
