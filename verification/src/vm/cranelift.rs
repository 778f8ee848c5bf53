//! Single-pass code generation for the lightweight JIT back end.
//!
//! The verified part decides everything: for a given IR tree it produces the
//! complete sequence of emission steps — SSA instructions, block layout,
//! branch targets and the order in which blocks are sealed.  An unverified
//! shim replays the steps one-for-one on the back end's function builder and
//! commits the executable pages; it makes no decision of its own.

use crate::ir::{blocks_block, blocks_instr, lemma_view_block, view_block, view_ir, BrainfuckIR, Ir};
use vstd::prelude::*;

verus! {

/// One emission step for the lightweight back end.
///
/// Emitted SSA values are numbered in order of creation; a step that uses an
/// earlier value names it by its distance from the most recent one
/// (`1` is the value just produced).  Basic blocks are numbered in order of
/// creation and named absolutely.
#[derive(Debug, Clone, Copy, PartialEq, Eq, Structural)]
pub enum ClifOp {
    /// Create a new basic block.
    CreateBlock,
    /// Append the two function parameters (tape base, I/O context) to the
    /// entry block; they become the first two values.
    AppendEntryParams,
    /// Continue emission in the given block.
    SwitchToBlock(usize),
    /// Seal the given block: all its predecessors are known.
    SealBlock(usize),
    /// Declare the single 32-bit variable holding the tape offset.
    DeclarePtrVar,
    /// A 32-bit integer constant.
    IconstI32(i64),
    /// Read the tape-offset variable.
    UseVar,
    /// Write the most recent value to the tape-offset variable.
    DefVar,
    /// Zero-extend the most recent value to 64 bits.
    UextendI64,
    /// Zero-extend the most recent value to 32 bits.
    UextendI32,
    /// Truncate the most recent value to 8 bits.
    IreduceI8,
    /// Add the tape-base parameter to the most recent value.
    IaddTapeBase,
    /// Add an immediate to the most recent value.
    IaddImm(i64),
    /// Load a byte from the address given by the most recent value.
    LoadI8,
    /// Store a byte: value and address named by their distance back.
    StoreI8(usize, usize),
    /// Call the imported `bf_put` with the I/O context and the most recent
    /// value.
    CallPut,
    /// Call the imported `bf_get` with the I/O context; its result is a new
    /// value.
    CallGet,
    /// Unconditional jump to the given block.
    Jump(usize),
    /// Branch on the most recent value: first block if nonzero, second if
    /// zero.
    Brif(usize, usize),
    /// Return from the generated function.
    Return,
}

/// The emission steps for one instruction, with `b` blocks already created.
pub open spec fn clif_instr_ops(node: Ir, b: nat) -> Seq<ClifOp>
    decreases node,
{
    match node {
        Ir::AddVal(n) => seq![
            ClifOp::UseVar,
            ClifOp::UextendI64,
            ClifOp::IaddTapeBase,
            ClifOp::LoadI8,
            ClifOp::UextendI32,
            ClifOp::IaddImm(n as i64),
            ClifOp::IreduceI8,
            ClifOp::StoreI8(1, 5),
        ],
        Ir::SubVal(n) => seq![
            ClifOp::UseVar,
            ClifOp::UextendI64,
            ClifOp::IaddTapeBase,
            ClifOp::LoadI8,
            ClifOp::UextendI32,
            ClifOp::IaddImm((-(n as int)) as i64),
            ClifOp::IreduceI8,
            ClifOp::StoreI8(1, 5),
        ],
        Ir::PtrMovRight(n) => seq![
            ClifOp::UseVar,
            ClifOp::IaddImm(n as i64),
            ClifOp::DefVar,
        ],
        Ir::PtrMovLeft(n) => seq![
            ClifOp::UseVar,
            ClifOp::IaddImm((-(n as int)) as i64),
            ClifOp::DefVar,
        ],
        Ir::PutByte => seq![
            ClifOp::UseVar,
            ClifOp::UextendI64,
            ClifOp::IaddTapeBase,
            ClifOp::LoadI8,
            ClifOp::UextendI32,
            ClifOp::CallPut,
        ],
        Ir::GetByte => seq![
            ClifOp::CallGet,
            ClifOp::IreduceI8,
            ClifOp::UseVar,
            ClifOp::UextendI64,
            ClifOp::IaddTapeBase,
            ClifOp::StoreI8(4, 1),
        ],
        Ir::Loop(body) => seq![
            ClifOp::CreateBlock,
            ClifOp::CreateBlock,
            ClifOp::CreateBlock,
            ClifOp::Jump(b as usize),
            ClifOp::SwitchToBlock(b as usize),
            ClifOp::UseVar,
            ClifOp::UextendI64,
            ClifOp::IaddTapeBase,
            ClifOp::LoadI8,
            ClifOp::UextendI32,
            ClifOp::Brif((b + 1) as usize, (b + 2) as usize),
            ClifOp::SwitchToBlock((b + 1) as usize),
        ] + clif_block_ops(body, b + 3) + seq![
            ClifOp::Jump(b as usize),
            ClifOp::SwitchToBlock((b + 2) as usize),
            ClifOp::SealBlock(b as usize),
            ClifOp::SealBlock((b + 1) as usize),
            ClifOp::SealBlock((b + 2) as usize),
        ],
    }
}

/// The emission steps for a block of instructions, in order.
pub open spec fn clif_block_ops(prog: Seq<Ir>, b: nat) -> Seq<ClifOp>
    decreases prog,
{
    if prog.len() == 0 {
        Seq::empty()
    } else {
        clif_instr_ops(prog[0], b) + clif_block_ops(
            prog.subrange(1, prog.len() as int),
            b + blocks_instr(prog[0]),
        )
    }
}

/// The complete emission plan for a program: entry-block prologue with the
/// zero-initialized tape-offset variable, the program body, and the return.
pub open spec fn clif_plan(prog: Seq<Ir>) -> Seq<ClifOp> {
    seq![
        ClifOp::CreateBlock,
        ClifOp::AppendEntryParams,
        ClifOp::SwitchToBlock(0),
        ClifOp::SealBlock(0),
        ClifOp::DeclarePtrVar,
        ClifOp::IconstI32(0),
        ClifOp::DefVar,
    ] + clif_block_ops(prog, 1) + seq![ClifOp::Return]
}

/// How many blocks one emission step creates.
pub open spec fn clif_creates(op: ClifOp) -> nat {
    if op is CreateBlock {
        1
    } else {
        0
    }
}

/// Whether one emission step names only blocks among the `nb` already
/// created.
pub open spec fn clif_op_blocks_ok(op: ClifOp, nb: nat) -> bool {
    match op {
        ClifOp::SwitchToBlock(b) => b < nb,
        ClifOp::SealBlock(b) => b < nb,
        ClifOp::Jump(b) => b < nb,
        ClifOp::Brif(b1, b2) => b1 < nb && b2 < nb,
        _ => true,
    }
}

/// Whether every step of a plan names only blocks created before it,
/// starting from `nb` already-created blocks.
pub open spec fn clif_blocks_ok(ops: Seq<ClifOp>, nb: nat) -> bool
    decreases ops.len(),
{
    ops.len() == 0 || (clif_op_blocks_ok(ops[0], nb) && clif_blocks_ok(
        ops.subrange(1, ops.len() as int),
        nb + clif_creates(ops[0]),
    ))
}

/// How many blocks a whole plan creates.
pub open spec fn clif_creates_all(ops: Seq<ClifOp>) -> nat
    decreases ops.len(),
{
    if ops.len() == 0 {
        0
    } else {
        clif_creates(ops[0]) + clif_creates_all(ops.subrange(1, ops.len() as int))
    }
}

/// Step-by-step block safety splits over concatenation.
proof fn lemma_clif_blocks_ok_concat(a: Seq<ClifOp>, c: Seq<ClifOp>, nb: nat)
    ensures
        clif_blocks_ok(a + c, nb) <==> (clif_blocks_ok(a, nb) && clif_blocks_ok(
            c,
            nb + clif_creates_all(a),
        )),
    decreases a.len(),
{
    if a.len() == 0 {
        assert(a + c =~= c);
    } else {
        assert((a + c).subrange(1, (a + c).len() as int) =~= a.subrange(1, a.len() as int) + c);
        lemma_clif_blocks_ok_concat(a.subrange(1, a.len() as int), c, nb + clif_creates(a[0]));
    }
}

/// The emission plan for one instruction creates exactly its loops' blocks.
#[verifier::rlimit(100)]
proof fn lemma_clif_instr_creates(node: Ir, b: nat)
    ensures
        clif_creates_all(clif_instr_ops(node, b)) == blocks_instr(node),
    decreases node, 0nat,
{
    reveal_with_fuel(clif_creates_all, 15);
    match node {
        Ir::Loop(body) => {
            let pre = seq![
                ClifOp::CreateBlock,
                ClifOp::CreateBlock,
                ClifOp::CreateBlock,
                ClifOp::Jump(b as usize),
                ClifOp::SwitchToBlock(b as usize),
                ClifOp::UseVar,
                ClifOp::UextendI64,
                ClifOp::IaddTapeBase,
                ClifOp::LoadI8,
                ClifOp::UextendI32,
                ClifOp::Brif((b + 1) as usize, (b + 2) as usize),
                ClifOp::SwitchToBlock((b + 1) as usize),
            ];
            let mid = clif_block_ops(body, b + 3);
            let post = seq![
                ClifOp::Jump(b as usize),
                ClifOp::SwitchToBlock((b + 2) as usize),
                ClifOp::SealBlock(b as usize),
                ClifOp::SealBlock((b + 1) as usize),
                ClifOp::SealBlock((b + 2) as usize),
            ];
            assert(clif_instr_ops(node, b) =~= pre + (mid + post));
            lemma_clif_creates_concat(pre, mid + post);
            lemma_clif_creates_concat(mid, post);
            lemma_clif_block_creates(body, b + 3);
            assert(clif_creates_all(pre) == 3);
            assert(clif_creates_all(post) == 0);
        },
        _ => {},
    }
}

/// The emission plan for a block creates exactly its loops' blocks.
proof fn lemma_clif_block_creates(prog: Seq<Ir>, b: nat)
    ensures
        clif_creates_all(clif_block_ops(prog, b)) == blocks_block(prog),
    decreases prog, 1nat,
{
    if prog.len() != 0 {
        lemma_clif_instr_creates(prog[0], b);
        lemma_clif_block_creates(prog.subrange(1, prog.len() as int), b + blocks_instr(prog[0]));
        lemma_clif_creates_concat(
            clif_instr_ops(prog[0], b),
            clif_block_ops(prog.subrange(1, prog.len() as int), b + blocks_instr(prog[0])),
        );
    }
}

/// Block counts add up over concatenation.
proof fn lemma_clif_creates_concat(a: Seq<ClifOp>, c: Seq<ClifOp>)
    ensures
        clif_creates_all(a + c) == clif_creates_all(a) + clif_creates_all(c),
    decreases a.len(),
{
    if a.len() == 0 {
        assert(a + c =~= c);
    } else {
        assert((a + c).subrange(1, (a + c).len() as int) =~= a.subrange(1, a.len() as int) + c);
        lemma_clif_creates_concat(a.subrange(1, a.len() as int), c);
    }
}

/// Every step of one instruction's plan names only blocks created before
/// it.
#[verifier::rlimit(100)]
proof fn lemma_clif_instr_blocks_ok(node: Ir, b: nat)
    ensures
        clif_blocks_ok(clif_instr_ops(node, b), b),
    decreases node, 0nat,
{
    reveal_with_fuel(clif_blocks_ok, 15);
    match node {
        Ir::Loop(body) => {
            let pre = seq![
                ClifOp::CreateBlock,
                ClifOp::CreateBlock,
                ClifOp::CreateBlock,
                ClifOp::Jump(b as usize),
                ClifOp::SwitchToBlock(b as usize),
                ClifOp::UseVar,
                ClifOp::UextendI64,
                ClifOp::IaddTapeBase,
                ClifOp::LoadI8,
                ClifOp::UextendI32,
                ClifOp::Brif((b + 1) as usize, (b + 2) as usize),
                ClifOp::SwitchToBlock((b + 1) as usize),
            ];
            let mid = clif_block_ops(body, b + 3);
            let post = seq![
                ClifOp::Jump(b as usize),
                ClifOp::SwitchToBlock((b + 2) as usize),
                ClifOp::SealBlock(b as usize),
                ClifOp::SealBlock((b + 1) as usize),
                ClifOp::SealBlock((b + 2) as usize),
            ];
            assert(clif_instr_ops(node, b) =~= pre + (mid + post));
            lemma_clif_block_blocks_ok(body, b + 3);
            lemma_clif_block_creates(body, b + 3);
            lemma_clif_blocks_ok_concat(mid, post, b + 3);
            assert(clif_blocks_ok(pre, b));
            assert(clif_creates_all(pre) == 3) by {
                reveal_with_fuel(clif_creates_all, 15);
            }
            lemma_clif_blocks_ok_concat(pre, mid + post, b);
        },
        _ => {},
    }
}

/// Every step of a block's plan names only blocks created before it.
proof fn lemma_clif_block_blocks_ok(prog: Seq<Ir>, b: nat)
    ensures
        clif_blocks_ok(clif_block_ops(prog, b), b),
    decreases prog, 1nat,
{
    if prog.len() != 0 {
        let rest = prog.subrange(1, prog.len() as int);
        lemma_clif_instr_blocks_ok(prog[0], b);
        lemma_clif_instr_creates(prog[0], b);
        lemma_clif_block_blocks_ok(rest, b + blocks_instr(prog[0]));
        lemma_clif_blocks_ok_concat(clif_instr_ops(prog[0], b), clif_block_ops(
            rest,
            b + blocks_instr(prog[0]),
        ), b);
    }
}

/// The whole plan is block-safe: every step that names a basic block —
/// a switch, a seal, a jump or a conditional branch — names one that an
/// earlier step created.  The shim that replays the plan on the back end's
/// builder therefore never looks up a block it has not yet made.
pub proof fn lemma_clif_plan_blocks_ok(prog: Seq<Ir>)
    ensures
        clif_blocks_ok(clif_plan(prog), 0),
{
    reveal_with_fuel(clif_blocks_ok, 10);
    reveal_with_fuel(clif_creates_all, 10);
    let pre = seq![
        ClifOp::CreateBlock,
        ClifOp::AppendEntryParams,
        ClifOp::SwitchToBlock(0),
        ClifOp::SealBlock(0),
        ClifOp::DeclarePtrVar,
        ClifOp::IconstI32(0),
        ClifOp::DefVar,
    ];
    let post = seq![ClifOp::Return];
    assert(clif_plan(prog) =~= pre + (clif_block_ops(prog, 1) + post));
    lemma_clif_block_blocks_ok(prog, 1);
    lemma_clif_block_creates(prog, 1);
    lemma_clif_blocks_ok_concat(clif_block_ops(prog, 1), post, 1);
    assert(clif_blocks_ok(pre, 0));
    assert(clif_creates_all(pre) == 1);
    lemma_clif_blocks_ok_concat(pre, clif_block_ops(prog, 1) + post, 0);
}

/// How many SSA values one emission step produces.
pub open spec fn clif_vals(op: ClifOp) -> nat {
    match op {
        ClifOp::IconstI32(_) => 1,
        ClifOp::UseVar => 1,
        ClifOp::UextendI64 => 1,
        ClifOp::UextendI32 => 1,
        ClifOp::IreduceI8 => 1,
        ClifOp::IaddTapeBase => 1,
        ClifOp::IaddImm(_) => 1,
        ClifOp::LoadI8 => 1,
        ClifOp::CallGet => 1,
        _ => 0,
    }
}

/// Whether one emission step reaches back only to values among the `nv`
/// already produced.
pub open spec fn clif_op_vals_ok(op: ClifOp, nv: nat) -> bool {
    match op {
        ClifOp::DefVar => nv >= 1,
        ClifOp::UextendI64 => nv >= 1,
        ClifOp::UextendI32 => nv >= 1,
        ClifOp::IreduceI8 => nv >= 1,
        ClifOp::IaddTapeBase => nv >= 1,
        ClifOp::IaddImm(_) => nv >= 1,
        ClifOp::LoadI8 => nv >= 1,
        ClifOp::CallPut => nv >= 1,
        ClifOp::Brif(_, _) => nv >= 1,
        ClifOp::StoreI8(vb, ab) => 1 <= vb <= nv && 1 <= ab <= nv,
        _ => true,
    }
}

/// Whether every step of a plan reaches back only to values produced
/// before it, starting from `nv` already-produced values.
pub open spec fn clif_vals_ok(ops: Seq<ClifOp>, nv: nat) -> bool
    decreases ops.len(),
{
    ops.len() == 0 || (clif_op_vals_ok(ops[0], nv) && clif_vals_ok(
        ops.subrange(1, ops.len() as int),
        nv + clif_vals(ops[0]),
    ))
}

/// How many SSA values a whole plan produces.
pub open spec fn clif_vals_all(ops: Seq<ClifOp>) -> nat
    decreases ops.len(),
{
    if ops.len() == 0 {
        0
    } else {
        clif_vals(ops[0]) + clif_vals_all(ops.subrange(1, ops.len() as int))
    }
}

/// How many SSA values one instruction's plan produces.
pub open spec fn vals_instr(node: Ir) -> nat
    decreases node,
{
    match node {
        Ir::AddVal(_) => 7,
        Ir::SubVal(_) => 7,
        Ir::PtrMovRight(_) => 2,
        Ir::PtrMovLeft(_) => 2,
        Ir::PutByte => 5,
        Ir::GetByte => 5,
        Ir::Loop(body) => 5 + vals_block(body),
    }
}

/// How many SSA values a block's plan produces.
pub open spec fn vals_block(prog: Seq<Ir>) -> nat
    decreases prog,
{
    if prog.len() == 0 {
        0
    } else {
        vals_instr(prog[0]) + vals_block(prog.subrange(1, prog.len() as int))
    }
}

/// Step-by-step value safety splits over concatenation.
proof fn lemma_clif_vals_ok_concat(a: Seq<ClifOp>, c: Seq<ClifOp>, nv: nat)
    ensures
        clif_vals_ok(a + c, nv) <==> (clif_vals_ok(a, nv) && clif_vals_ok(
            c,
            nv + clif_vals_all(a),
        )),
    decreases a.len(),
{
    if a.len() == 0 {
        assert(a + c =~= c);
    } else {
        assert((a + c).subrange(1, (a + c).len() as int) =~= a.subrange(1, a.len() as int) + c);
        lemma_clif_vals_ok_concat(a.subrange(1, a.len() as int), c, nv + clif_vals(a[0]));
    }
}

/// Value counts add up over concatenation.
proof fn lemma_clif_vals_concat(a: Seq<ClifOp>, c: Seq<ClifOp>)
    ensures
        clif_vals_all(a + c) == clif_vals_all(a) + clif_vals_all(c),
    decreases a.len(),
{
    if a.len() == 0 {
        assert(a + c =~= c);
    } else {
        assert((a + c).subrange(1, (a + c).len() as int) =~= a.subrange(1, a.len() as int) + c);
        lemma_clif_vals_concat(a.subrange(1, a.len() as int), c);
    }
}

/// The emission plan for one instruction produces exactly its values.
#[verifier::rlimit(100)]
proof fn lemma_clif_instr_vals(node: Ir, b: nat)
    ensures
        clif_vals_all(clif_instr_ops(node, b)) == vals_instr(node),
    decreases node, 0nat,
{
    reveal_with_fuel(clif_vals_all, 15);
    match node {
        Ir::Loop(body) => {
            let pre = seq![
                ClifOp::CreateBlock,
                ClifOp::CreateBlock,
                ClifOp::CreateBlock,
                ClifOp::Jump(b as usize),
                ClifOp::SwitchToBlock(b as usize),
                ClifOp::UseVar,
                ClifOp::UextendI64,
                ClifOp::IaddTapeBase,
                ClifOp::LoadI8,
                ClifOp::UextendI32,
                ClifOp::Brif((b + 1) as usize, (b + 2) as usize),
                ClifOp::SwitchToBlock((b + 1) as usize),
            ];
            let mid = clif_block_ops(body, b + 3);
            let post = seq![
                ClifOp::Jump(b as usize),
                ClifOp::SwitchToBlock((b + 2) as usize),
                ClifOp::SealBlock(b as usize),
                ClifOp::SealBlock((b + 1) as usize),
                ClifOp::SealBlock((b + 2) as usize),
            ];
            assert(clif_instr_ops(node, b) =~= pre + (mid + post));
            lemma_clif_vals_concat(pre, mid + post);
            lemma_clif_vals_concat(mid, post);
            lemma_clif_block_vals(body, b + 3);
            assert(clif_vals_all(pre) == 5);
            assert(clif_vals_all(post) == 0);
        },
        _ => {},
    }
}

/// The emission plan for a block produces exactly its values.
proof fn lemma_clif_block_vals(prog: Seq<Ir>, b: nat)
    ensures
        clif_vals_all(clif_block_ops(prog, b)) == vals_block(prog),
    decreases prog, 1nat,
{
    if prog.len() != 0 {
        lemma_clif_instr_vals(prog[0], b);
        lemma_clif_block_vals(prog.subrange(1, prog.len() as int), b + blocks_instr(prog[0]));
        lemma_clif_vals_concat(
            clif_instr_ops(prog[0], b),
            clif_block_ops(prog.subrange(1, prog.len() as int), b + blocks_instr(prog[0])),
        );
    }
}

/// Every step of one instruction's plan reaches back only to values
/// produced before it.
#[verifier::rlimit(100)]
proof fn lemma_clif_instr_vals_ok(node: Ir, b: nat, nv: nat)
    ensures
        clif_vals_ok(clif_instr_ops(node, b), nv),
    decreases node, 0nat,
{
    reveal_with_fuel(clif_vals_ok, 15);
    match node {
        Ir::Loop(body) => {
            let pre = seq![
                ClifOp::CreateBlock,
                ClifOp::CreateBlock,
                ClifOp::CreateBlock,
                ClifOp::Jump(b as usize),
                ClifOp::SwitchToBlock(b as usize),
                ClifOp::UseVar,
                ClifOp::UextendI64,
                ClifOp::IaddTapeBase,
                ClifOp::LoadI8,
                ClifOp::UextendI32,
                ClifOp::Brif((b + 1) as usize, (b + 2) as usize),
                ClifOp::SwitchToBlock((b + 1) as usize),
            ];
            let mid = clif_block_ops(body, b + 3);
            let post = seq![
                ClifOp::Jump(b as usize),
                ClifOp::SwitchToBlock((b + 2) as usize),
                ClifOp::SealBlock(b as usize),
                ClifOp::SealBlock((b + 1) as usize),
                ClifOp::SealBlock((b + 2) as usize),
            ];
            assert(clif_instr_ops(node, b) =~= pre + (mid + post));
            lemma_clif_block_vals_ok(body, b + 3, nv + 5);
            lemma_clif_vals_ok_concat(mid, post, nv + 5);
            assert(clif_vals_ok(pre, nv));
            assert(clif_vals_all(pre) == 5) by {
                reveal_with_fuel(clif_vals_all, 15);
            }
            lemma_clif_vals_ok_concat(pre, mid + post, nv);
        },
        _ => {},
    }
}

/// Every step of a block's plan reaches back only to values produced
/// before it.
proof fn lemma_clif_block_vals_ok(prog: Seq<Ir>, b: nat, nv: nat)
    ensures
        clif_vals_ok(clif_block_ops(prog, b), nv),
    decreases prog, 1nat,
{
    if prog.len() != 0 {
        let rest = prog.subrange(1, prog.len() as int);
        lemma_clif_instr_vals_ok(prog[0], b, nv);
        lemma_clif_instr_vals(prog[0], b);
        lemma_clif_block_vals_ok(rest, b + blocks_instr(prog[0]), nv + vals_instr(prog[0]));
        lemma_clif_vals_ok_concat(clif_instr_ops(prog[0], b), clif_block_ops(
            rest,
            b + blocks_instr(prog[0]),
        ), nv);
    }
}

/// The whole plan is value-safe: every step that reaches back — an extend,
/// a store, a call argument, a branch condition — reaches a value an
/// earlier step produced.  The shim that replays the plan therefore never
/// looks up a value it has not yet made.
pub proof fn lemma_clif_plan_vals_ok(prog: Seq<Ir>)
    ensures
        clif_vals_ok(clif_plan(prog), 0),
{
    reveal_with_fuel(clif_vals_ok, 10);
    reveal_with_fuel(clif_vals_all, 10);
    let pre = seq![
        ClifOp::CreateBlock,
        ClifOp::AppendEntryParams,
        ClifOp::SwitchToBlock(0),
        ClifOp::SealBlock(0),
        ClifOp::DeclarePtrVar,
        ClifOp::IconstI32(0),
        ClifOp::DefVar,
    ];
    let post = seq![ClifOp::Return];
    assert(clif_plan(prog) =~= pre + (clif_block_ops(prog, 1) + post));
    lemma_clif_block_vals_ok(prog, 1, 1);
    lemma_clif_block_vals(prog, 1);
    lemma_clif_vals_ok_concat(clif_block_ops(prog, 1), post, 1);
    assert(clif_vals_ok(pre, 0));
    assert(clif_vals_all(pre) == 1);
    lemma_clif_vals_ok_concat(pre, clif_block_ops(prog, 1) + post, 0);
}

/// How often a plan seals the given block.
pub open spec fn clif_seal_count(ops: Seq<ClifOp>, b: usize) -> nat
    decreases ops.len(),
{
    if ops.len() == 0 {
        0
    } else {
        (if ops[0] == ClifOp::SealBlock(b) {
            1nat
        } else {
            0nat
        }) + clif_seal_count(ops.subrange(1, ops.len() as int), b)
    }
}

/// Seal counts add up over concatenation.
proof fn lemma_clif_seal_count_concat(a: Seq<ClifOp>, c: Seq<ClifOp>, b: usize)
    ensures
        clif_seal_count(a + c, b) == clif_seal_count(a, b) + clif_seal_count(c, b),
    decreases a.len(),
{
    if a.len() == 0 {
        assert(a + c =~= c);
    } else {
        assert((a + c).subrange(1, (a + c).len() as int) =~= a.subrange(1, a.len() as int) + c);
        lemma_clif_seal_count_concat(a.subrange(1, a.len() as int), c, b);
    }
}

/// One instruction's plan seals exactly the blocks of its own loops, each
/// once.
#[verifier::rlimit(100)]
proof fn lemma_clif_instr_seals(node: Ir, b0: nat, b: usize)
    requires
        b0 + blocks_instr(node) <= usize::MAX,
    ensures
        clif_seal_count(clif_instr_ops(node, b0), b) == if b0 <= b < b0 + blocks_instr(node) {
            1nat
        } else {
            0nat
        },
    decreases node, 0nat,
{
    reveal_with_fuel(clif_seal_count, 15);
    match node {
        Ir::Loop(body) => {
            let pre = seq![
                ClifOp::CreateBlock,
                ClifOp::CreateBlock,
                ClifOp::CreateBlock,
                ClifOp::Jump(b0 as usize),
                ClifOp::SwitchToBlock(b0 as usize),
                ClifOp::UseVar,
                ClifOp::UextendI64,
                ClifOp::IaddTapeBase,
                ClifOp::LoadI8,
                ClifOp::UextendI32,
                ClifOp::Brif((b0 + 1) as usize, (b0 + 2) as usize),
                ClifOp::SwitchToBlock((b0 + 1) as usize),
            ];
            let mid = clif_block_ops(body, b0 + 3);
            let post = seq![
                ClifOp::Jump(b0 as usize),
                ClifOp::SwitchToBlock((b0 + 2) as usize),
                ClifOp::SealBlock(b0 as usize),
                ClifOp::SealBlock((b0 + 1) as usize),
                ClifOp::SealBlock((b0 + 2) as usize),
            ];
            assert(clif_instr_ops(node, b0) =~= pre + (mid + post));
            lemma_clif_seal_count_concat(pre, mid + post, b);
            lemma_clif_seal_count_concat(mid, post, b);
            lemma_clif_block_seals(body, b0 + 3, b);
            assert(clif_seal_count(pre, b) == 0);
        },
        _ => {},
    }
}

/// A block's plan seals exactly the blocks of its loops, each once.
proof fn lemma_clif_block_seals(prog: Seq<Ir>, b0: nat, b: usize)
    requires
        b0 + blocks_block(prog) <= usize::MAX,
    ensures
        clif_seal_count(clif_block_ops(prog, b0), b) == if b0 <= b < b0 + blocks_block(prog) {
            1nat
        } else {
            0nat
        },
    decreases prog, 1nat,
{
    if prog.len() != 0 {
        let rest = prog.subrange(1, prog.len() as int);
        lemma_clif_instr_seals(prog[0], b0, b);
        lemma_clif_block_seals(rest, b0 + blocks_instr(prog[0]), b);
        lemma_clif_seal_count_concat(clif_instr_ops(prog[0], b0), clif_block_ops(
            rest,
            b0 + blocks_instr(prog[0]),
        ), b);
    }
}

/// Every block the plan creates is sealed exactly once: the entry block in
/// the prologue, once its only predecessor (none) is known, and each
/// loop's head, body and end after the back edge has been emitted.  The
/// bound keeps the block numbering injective; any program whose plan fits
/// in memory satisfies it.
pub proof fn lemma_clif_plan_seals_once(prog: Seq<Ir>, b: usize)
    requires
        1 + blocks_block(prog) <= usize::MAX,
    ensures
        clif_seal_count(clif_plan(prog), b) == if b < 1 + blocks_block(prog) {
            1nat
        } else {
            0nat
        },
{
    reveal_with_fuel(clif_seal_count, 10);
    let pre = seq![
        ClifOp::CreateBlock,
        ClifOp::AppendEntryParams,
        ClifOp::SwitchToBlock(0),
        ClifOp::SealBlock(0),
        ClifOp::DeclarePtrVar,
        ClifOp::IconstI32(0),
        ClifOp::DefVar,
    ];
    let post = seq![ClifOp::Return];
    assert(clif_plan(prog) =~= pre + (clif_block_ops(prog, 1) + post));
    lemma_clif_seal_count_concat(pre, clif_block_ops(prog, 1) + post, b);
    lemma_clif_seal_count_concat(clif_block_ops(prog, 1), post, b);
    lemma_clif_block_seals(prog, 1, b);
    assert(clif_seal_count(pre, b) == if b == 0 {
        1nat
    } else {
        0nat
    });
    assert(clif_seal_count(post, b) == 0);
}

/// A `Vec`'s length always fits in `usize`.
proof fn lemma_vec_len_bound<T>(v: &Vec<T>)
    ensures
        v@.len() <= usize::MAX,
{
    vstd::std_specs::vec::axiom_spec_len(v);
}

/// Emit the steps for one block of instructions onto the end of `ops`.
///
/// `nb` is the number of basic blocks created so far; the result is the
/// count after this block's loops.
#[verifier::loop_isolation(false)]
#[verifier::rlimit(100)]
pub fn codegen_bf_block(ops: &mut Vec<ClifOp>, ir_block: &Vec<BrainfuckIR>, nb: usize) -> (r: usize)
    requires
        nb as int <= old(ops)@.len() + 1,
    ensures
        final(ops)@ == old(ops)@ + clif_block_ops(view_block(ir_block@), nb as nat),
        r as int == nb + blocks_block(view_block(ir_block@)),
        r as int <= final(ops)@.len() + 1,
    decreases ir_block@,
{
    broadcast use lemma_view_block;

    let ghost prog = view_block(ir_block@);
    let ghost ops0 = ops@;
    let n = ir_block.len();
    let mut pc: usize = 0;
    let mut nbc: usize = nb;
    proof {
        assert(prog.subrange(0, prog.len() as int) =~= prog);
    }
    while pc < n
        invariant
            pc <= n,
            nbc as int <= ops@.len() + 1,
            ops0 + clif_block_ops(prog, nb as nat) == ops@ + clif_block_ops(
                prog.subrange(pc as int, prog.len() as int),
                nbc as nat,
            ),
            nbc + blocks_block(prog.subrange(pc as int, prog.len() as int)) == nb
                + blocks_block(prog),
        decreases n - pc,
    {
        let ghost rest = prog.subrange(pc as int, prog.len() as int);
        let ghost opsc = ops@;
        let ghost nbc0 = nbc;
        proof {
            assert(rest[0] == view_ir(ir_block@[pc as int]));
            assert(rest.subrange(1, rest.len() as int) =~= prog.subrange(
                pc as int + 1,
                prog.len() as int,
            ));
        }
        match &ir_block[pc] {
            BrainfuckIR::AddVal(v) => {
                ops.push(ClifOp::UseVar);
                ops.push(ClifOp::UextendI64);
                ops.push(ClifOp::IaddTapeBase);
                ops.push(ClifOp::LoadI8);
                ops.push(ClifOp::UextendI32);
                ops.push(ClifOp::IaddImm(*v as i64));
                ops.push(ClifOp::IreduceI8);
                ops.push(ClifOp::StoreI8(1, 5));
                proof {
                    assert(ops@ =~= opsc + clif_instr_ops(rest[0], nbc as nat));
                }
            },
            BrainfuckIR::SubVal(v) => {
                ops.push(ClifOp::UseVar);
                ops.push(ClifOp::UextendI64);
                ops.push(ClifOp::IaddTapeBase);
                ops.push(ClifOp::LoadI8);
                ops.push(ClifOp::UextendI32);
                ops.push(ClifOp::IaddImm(-(*v as i64)));
                ops.push(ClifOp::IreduceI8);
                ops.push(ClifOp::StoreI8(1, 5));
                proof {
                    assert(ops@ =~= opsc + clif_instr_ops(rest[0], nbc as nat));
                }
            },
            BrainfuckIR::PtrMovRight(v) => {
                ops.push(ClifOp::UseVar);
                ops.push(ClifOp::IaddImm(*v as i64));
                ops.push(ClifOp::DefVar);
                proof {
                    assert(ops@ =~= opsc + clif_instr_ops(rest[0], nbc as nat));
                }
            },
            BrainfuckIR::PtrMovLeft(v) => {
                ops.push(ClifOp::UseVar);
                ops.push(ClifOp::IaddImm(-(*v as i64)));
                ops.push(ClifOp::DefVar);
                proof {
                    assert(ops@ =~= opsc + clif_instr_ops(rest[0], nbc as nat));
                }
            },
            BrainfuckIR::PutByte => {
                ops.push(ClifOp::UseVar);
                ops.push(ClifOp::UextendI64);
                ops.push(ClifOp::IaddTapeBase);
                ops.push(ClifOp::LoadI8);
                ops.push(ClifOp::UextendI32);
                ops.push(ClifOp::CallPut);
                proof {
                    assert(ops@ =~= opsc + clif_instr_ops(rest[0], nbc as nat));
                }
            },
            BrainfuckIR::GetByte => {
                ops.push(ClifOp::CallGet);
                ops.push(ClifOp::IreduceI8);
                ops.push(ClifOp::UseVar);
                ops.push(ClifOp::UextendI64);
                ops.push(ClifOp::IaddTapeBase);
                ops.push(ClifOp::StoreI8(4, 1));
                proof {
                    assert(ops@ =~= opsc + clif_instr_ops(rest[0], nbc as nat));
                }
            },
            BrainfuckIR::Loop(body) => {
                ops.push(ClifOp::CreateBlock);
                ops.push(ClifOp::CreateBlock);
                ops.push(ClifOp::CreateBlock);
                proof {
                    lemma_vec_len_bound(ops);
                }
                let head = nbc;
                let bodyb = nbc + 1;
                let endb = nbc + 2;
                ops.push(ClifOp::Jump(head));
                ops.push(ClifOp::SwitchToBlock(head));
                ops.push(ClifOp::UseVar);
                ops.push(ClifOp::UextendI64);
                ops.push(ClifOp::IaddTapeBase);
                ops.push(ClifOp::LoadI8);
                ops.push(ClifOp::UextendI32);
                ops.push(ClifOp::Brif(bodyb, endb));
                ops.push(ClifOp::SwitchToBlock(bodyb));
                let ghost seg1 = ops@;
                proof {
                    lemma_vec_len_bound(ops);
                    assert(decreases_to!(ir_block@ => ir_block@[pc as int]));
                    assert(decreases_to!(ir_block@[pc as int] => ir_block@[pc as int]->Loop_0));
                    assert(decreases_to!(ir_block@[pc as int]->Loop_0 => ir_block@[pc as
                        int]->Loop_0@));
                }
                let nb2 = codegen_bf_block(ops, body, endb + 1);
                ops.push(ClifOp::Jump(head));
                ops.push(ClifOp::SwitchToBlock(endb));
                ops.push(ClifOp::SealBlock(head));
                ops.push(ClifOp::SealBlock(bodyb));
                ops.push(ClifOp::SealBlock(endb));
                proof {
                    assert(seg1 =~= opsc + seq![
                        ClifOp::CreateBlock,
                        ClifOp::CreateBlock,
                        ClifOp::CreateBlock,
                        ClifOp::Jump(head),
                        ClifOp::SwitchToBlock(head),
                        ClifOp::UseVar,
                        ClifOp::UextendI64,
                        ClifOp::IaddTapeBase,
                        ClifOp::LoadI8,
                        ClifOp::UextendI32,
                        ClifOp::Brif(bodyb, endb),
                        ClifOp::SwitchToBlock(bodyb),
                    ]);
                    assert(ops@ =~= seg1 + clif_block_ops(
                        view_block(body@),
                        (nbc + 3) as nat,
                    ) + seq![
                        ClifOp::Jump(head),
                        ClifOp::SwitchToBlock(endb),
                        ClifOp::SealBlock(head),
                        ClifOp::SealBlock(bodyb),
                        ClifOp::SealBlock(endb),
                    ]);
                    assert(ops@ =~= opsc + clif_instr_ops(rest[0], nbc as nat));
                }
                nbc = nb2;
            },
        }
        proof {
            if !(rest[0] matches Ir::Loop(_)) {
                assert(blocks_instr(rest[0]) == 0);
            }
            assert(nbc as int == nbc0 + blocks_instr(rest[0]));
            assert(clif_block_ops(rest, nbc0 as nat) == clif_instr_ops(rest[0], nbc0 as nat)
                + clif_block_ops(rest.subrange(1, rest.len() as int), nbc as nat));
            assert(ops0 + clif_block_ops(prog, nb as nat) =~= ops@ + clif_block_ops(
                prog.subrange(pc as int + 1, prog.len() as int),
                nbc as nat,
            ));
        }
        pc = pc + 1;
    }
    proof {
        assert(prog.subrange(n as int, prog.len() as int).len() == 0);
        assert(ops0 + clif_block_ops(prog, nb as nat) =~= ops@);
    }
    nbc
}

/// Build the complete emission plan for a program: the function prologue
/// (entry block, parameters, the zeroed tape-offset variable), the body,
/// and the final return.
pub fn compile_brainfuck_ir(ir_block: &Vec<BrainfuckIR>) -> (ops: Vec<ClifOp>)
    ensures
        ops@ == clif_plan(view_block(ir_block@)),
{
    let mut ops: Vec<ClifOp> = Vec::new();
    ops.push(ClifOp::CreateBlock);
    ops.push(ClifOp::AppendEntryParams);
    ops.push(ClifOp::SwitchToBlock(0));
    ops.push(ClifOp::SealBlock(0));
    ops.push(ClifOp::DeclarePtrVar);
    ops.push(ClifOp::IconstI32(0));
    ops.push(ClifOp::DefVar);
    let _ = codegen_bf_block(&mut ops, ir_block, 1);
    ops.push(ClifOp::Return);
    proof {
        assert(ops@ =~= clif_plan(view_block(ir_block@)));
    }
    ops
}

} // verus!
