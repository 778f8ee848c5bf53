use vstd::prelude::*;

verus! {

/// Tree-shaped intermediate representation of a program.
///
/// Consecutive runs of the four mutation/move operators are folded by the
/// parser into a single instruction carrying the run length.
#[derive(Debug, PartialEq, Eq)]
pub enum BrainfuckIR {
    AddVal(u8),             // +
    SubVal(u8),             // -
    PtrMovRight(u32),       // >
    PtrMovLeft(u32),        // <
    PutByte,                // .
    GetByte,                // ,
    Loop(Vec<BrainfuckIR>), // [ loop_block ]
}

/// Mathematical mirror of `BrainfuckIR`, used by specifications:
/// loop bodies are `Seq`s instead of `Vec`s.
pub enum Ir {
    AddVal(u8),
    SubVal(u8),
    PtrMovRight(u32),
    PtrMovLeft(u32),
    PutByte,
    GetByte,
    Loop(Seq<Ir>),
}

/// Abstraction of one executable IR node.
pub open spec fn view_ir(node: BrainfuckIR) -> Ir
    decreases node,
{
    match node {
        BrainfuckIR::AddVal(n) => Ir::AddVal(n),
        BrainfuckIR::SubVal(n) => Ir::SubVal(n),
        BrainfuckIR::PtrMovRight(n) => Ir::PtrMovRight(n),
        BrainfuckIR::PtrMovLeft(n) => Ir::PtrMovLeft(n),
        BrainfuckIR::PutByte => Ir::PutByte,
        BrainfuckIR::GetByte => Ir::GetByte,
        BrainfuckIR::Loop(body) => Ir::Loop(view_block(body@)),
    }
}

/// Abstraction of a sequence of executable IR nodes.
pub open spec fn view_block(nodes: Seq<BrainfuckIR>) -> Seq<Ir>
    decreases nodes,
{
    if nodes.len() == 0 {
        Seq::empty()
    } else {
        view_block(nodes.drop_last()).push(view_ir(nodes.last()))
    }
}

/// `view_block` maps `view_ir` over the sequence, element by element.
pub broadcast proof fn lemma_view_block(nodes: Seq<BrainfuckIR>)
    ensures
        (#[trigger] view_block(nodes)).len() == nodes.len(),
        forall|i: int| 0 <= i < nodes.len() ==> view_block(nodes)[i] == view_ir(nodes[i]),
    decreases nodes.len(),
{
    if nodes.len() > 0 {
        lemma_view_block(nodes.drop_last());
    }
}

/// Appending a node commutes with abstraction.
pub broadcast proof fn lemma_view_block_push(nodes: Seq<BrainfuckIR>, x: BrainfuckIR)
    ensures
        #[trigger] view_block(nodes.push(x)) == view_block(nodes).push(view_ir(x)),
{
    assert(nodes.push(x).drop_last() =~= nodes);
}

/// How many basic blocks a code generator lays out for one instruction:
/// three per loop (head, body, end), nested bodies included, none for the
/// straight-line instructions.
pub open spec fn blocks_instr(node: Ir) -> nat
    decreases node,
{
    match node {
        Ir::Loop(body) => 3 + blocks_block(body),
        _ => 0,
    }
}

/// How many basic blocks a code generator lays out for a block of
/// instructions.
pub open spec fn blocks_block(prog: Seq<Ir>) -> nat
    decreases prog,
{
    if prog.len() == 0 {
        0
    } else {
        blocks_instr(prog[0]) + blocks_block(prog.subrange(1, prog.len() as int))
    }
}

/// Raised when `[` and `]` do not balance in the source text.
#[derive(Debug, Clone, Copy, PartialEq, Eq, Structural)]
pub enum ParseError {
    /// A `[` was never closed.
    UnmatchedOpen,
    /// A `]` appeared with no `[` open.
    UnmatchedClose,
}

/// The six instruction bytes that act on the current open block.
pub open spec fn is_op_byte(b: u8) -> bool {
    b == 43 || b == 45 || b == 62 || b == 60 || b == 46 || b == 44
}

/// The eight instruction bytes; everything else is whitespace or comment.
pub open spec fn is_instr_byte(b: u8) -> bool {
    is_op_byte(b) || b == 91 || b == 93
}

/// Effect of one non-bracket instruction byte on the innermost open block:
/// a maximal run of `+`, `-`, `>` or `<` grows the count of the last
/// instruction (wrapping at the counter's width, as `as u8` / `as u32`
/// truncation of the run length would); `.` and `,` are appended as they are.
pub open spec fn apply_op(top: Seq<Ir>, b: u8) -> Seq<Ir> {
    if b == 43 {
        if top.len() > 0 && (top.last() matches Ir::AddVal(_)) {
            let k = top.last()->AddVal_0;
            top.update(top.len() - 1, Ir::AddVal(vstd::wrapping::u8_specs::wrapping_add(k, 1)))
        } else {
            top.push(Ir::AddVal(1))
        }
    } else if b == 45 {
        if top.len() > 0 && (top.last() matches Ir::SubVal(_)) {
            let k = top.last()->SubVal_0;
            top.update(top.len() - 1, Ir::SubVal(vstd::wrapping::u8_specs::wrapping_add(k, 1)))
        } else {
            top.push(Ir::SubVal(1))
        }
    } else if b == 62 {
        if top.len() > 0 && (top.last() matches Ir::PtrMovRight(_)) {
            let k = top.last()->PtrMovRight_0;
            top.update(top.len() - 1, Ir::PtrMovRight(vstd::wrapping::u32_specs::wrapping_add(k, 1)))
        } else {
            top.push(Ir::PtrMovRight(1))
        }
    } else if b == 60 {
        if top.len() > 0 && (top.last() matches Ir::PtrMovLeft(_)) {
            let k = top.last()->PtrMovLeft_0;
            top.update(top.len() - 1, Ir::PtrMovLeft(vstd::wrapping::u32_specs::wrapping_add(k, 1)))
        } else {
            top.push(Ir::PtrMovLeft(1))
        }
    } else if b == 46 {
        top.push(Ir::PutByte)
    } else {
        top.push(Ir::GetByte)
    }
}

/// One byte of source acting on the parser's stack of open blocks.
/// The stack always holds at least the outermost block; `[` opens a block,
/// `]` closes the innermost one and appends it as a `Loop` to the block
/// below; every byte that is not one of the eight instruction characters is
/// skipped. `None` reports a `]` with no open `[`.
pub open spec fn parse_step(stack: Seq<Seq<Ir>>, b: u8) -> Option<Seq<Seq<Ir>>>
    recommends
        stack.len() >= 1,
{
    if b == 91 {
        Some(stack.push(Seq::empty()))
    } else if b == 93 {
        if stack.len() >= 2 {
            let body = stack.last();
            let outer = stack[stack.len() - 2];
            Some(stack.drop_last().drop_last().push(outer.push(Ir::Loop(body))))
        } else {
            None
        }
    } else if is_op_byte(b) {
        Some(stack.update(stack.len() - 1, apply_op(stack.last(), b)))
    } else {
        Some(stack)
    }
}

/// The parser's stack after consuming the whole source, byte by byte.
pub open spec fn parse_stack(s: Seq<u8>) -> Option<Seq<Seq<Ir>>>
    decreases s.len(),
{
    if s.len() == 0 {
        Some(seq![Seq::<Ir>::empty()])
    } else {
        match parse_stack(s.drop_last()) {
            None => None,
            Some(stack) => parse_step(stack, s.last()),
        }
    }
}

/// What parsing a source text yields: the outermost block, provided every
/// `]` had an open `[` (else `parse_stack` is `None`) and every `[` was
/// closed again (else more than one block is still open).
pub open spec fn spec_parse(s: Seq<u8>) -> Option<Seq<Ir>> {
    match parse_stack(s) {
        None => None,
        Some(stack) => if stack.len() == 1 {
            Some(stack[0])
        } else {
            None
        },
    }
}

/// Abstraction of the parser's stack of partially built blocks.
pub open spec fn view_frames(stack: Seq<Vec<BrainfuckIR>>) -> Seq<Seq<Ir>> {
    Seq::new(stack.len(), |i: int| view_block(stack[i]@))
}

/// Once an unmatched `]` is seen, no continuation of the source parses.
proof fn lemma_parse_stack_none_extends(s: Seq<u8>, j: int)
    requires
        0 <= j <= s.len(),
        parse_stack(s.take(j)) is None,
    ensures
        parse_stack(s) is None,
    decreases s.len(),
{
    if j == s.len() {
        assert(s.take(j) =~= s);
    } else {
        assert(s.drop_last().take(j) =~= s.take(j));
        lemma_parse_stack_none_extends(s.drop_last(), j);
    }
}

/// A source made only of whitespace and comments parses to an empty IR.
pub proof fn lemma_blank_source_parses_empty(s: Seq<u8>)
    requires
        forall|i: int| 0 <= i < s.len() ==> !is_instr_byte(#[trigger] s[i]),
    ensures
        spec_parse(s) == Some(Seq::<Ir>::empty()),
    decreases s.len(),
{
    if s.len() == 0 {
        assert(parse_stack(s) == Some(seq![Seq::<Ir>::empty()]));
        assert(parse_stack(s)->Some_0[0] == Seq::<Ir>::empty());
    } else {
        assert(forall|i: int|
            0 <= i < s.drop_last().len() ==> !is_instr_byte(#[trigger] s.drop_last()[i]));
        lemma_blank_source_parses_empty(s.drop_last());
        assert(!is_instr_byte(s.last()));
        assert(parse_step(parse_stack(s.drop_last())->Some_0, s.last()) == parse_stack(
            s.drop_last(),
        ));
    }
}

/// A maximal run of one of the four counted operators folds into a single
/// instruction whose count is the run length, truncated to the counter's
/// width.  `op` must be `+`, `-`, `>` or `<`; the folded instruction is
/// `fold_run(op, len)`.
pub open spec fn fold_run(op: u8, len: nat) -> Ir
    recommends
        op == 43 || op == 45 || op == 62 || op == 60,
{
    if op == 43 {
        Ir::AddVal((len % 256) as u8)
    } else if op == 45 {
        Ir::SubVal((len % 256) as u8)
    } else if op == 62 {
        Ir::PtrMovRight((len % 0x1_0000_0000) as u32)
    } else {
        Ir::PtrMovLeft((len % 0x1_0000_0000) as u32)
    }
}

/// Parsing a source of `N` copies of one counted operator yields exactly
/// one instruction carrying `N` truncated to the counter's width: `N mod
/// 256` for `+` and `-`, `N mod 2^32` for `>` and `<`.
pub proof fn lemma_run_folds(s: Seq<u8>, op: u8)
    requires
        op == 43 || op == 45 || op == 62 || op == 60,
        s.len() >= 1,
        forall|i: int| 0 <= i < s.len() ==> #[trigger] s[i] == op,
    ensures
        spec_parse(s) == Some(seq![fold_run(op, s.len())]),
    decreases s.len(),
{
    if s.len() == 1 {
        assert(parse_stack(s.drop_last()) == Some(seq![Seq::<Ir>::empty()]));
        assert(s.last() == op);
        assert(apply_op(Seq::<Ir>::empty(), op) =~= seq![fold_run(op, 1)]);
        assert(parse_stack(s)->Some_0 =~~= seq![seq![fold_run(op, 1)]]);
        assert(spec_parse(s)->Some_0 =~= seq![fold_run(op, 1)]);
    } else {
        let t = s.drop_last();
        assert(forall|i: int| 0 <= i < t.len() ==> #[trigger] t[i] == op);
        lemma_run_folds(t, op);
        let prev = parse_stack(t)->Some_0;
        assert(prev.len() == 1 && prev[0] == seq![fold_run(op, t.len())]);
        assert(prev[0].last() == fold_run(op, t.len()));
        let k = s.len();
        assert((((k - 1) % 256) + 1) % 256 == k % 256);
        assert((((k - 1) % 0x1_0000_0000) + 1) % 0x1_0000_0000 == k % 0x1_0000_0000);
        assert(apply_op(prev[0], op) =~= seq![fold_run(op, k as nat)]);
        assert(parse_stack(s)->Some_0 =~~= seq![seq![fold_run(op, k as nat)]]);
        assert(spec_parse(s)->Some_0 =~= seq![fold_run(op, k as nat)]);
    }
}

/// Append one instruction byte to the innermost open block, fusing runs of
/// `+`, `-`, `>`, `<` into the count of the previous instruction.
fn push_op(cur: &mut Vec<BrainfuckIR>, b: u8)
    requires
        is_op_byte(b),
    ensures
        view_block(final(cur)@) == apply_op(view_block(old(cur)@), b),
{
    broadcast use lemma_view_block;

    let ghost top = view_block(old(cur)@);
    let l = cur.len();
    if b == 43 {
        let mut fused = false;
        let mut kk: u8 = 0;
        if l > 0 {
            match &cur[l - 1] {
                BrainfuckIR::AddVal(k) => {
                    kk = *k;
                    fused = true;
                },
                _ => {},
            }
        }
        if fused {
            cur.set(l - 1, BrainfuckIR::AddVal(kk.wrapping_add(1)));
            proof {
                assert(view_block(cur@) =~= apply_op(top, b));
            }
        } else {
            cur.push(BrainfuckIR::AddVal(1));
            proof {
                assert(view_block(cur@) =~= apply_op(top, b));
            }
        }
    } else if b == 45 {
        let mut fused = false;
        let mut kk: u8 = 0;
        if l > 0 {
            match &cur[l - 1] {
                BrainfuckIR::SubVal(k) => {
                    kk = *k;
                    fused = true;
                },
                _ => {},
            }
        }
        if fused {
            cur.set(l - 1, BrainfuckIR::SubVal(kk.wrapping_add(1)));
            proof {
                assert(view_block(cur@) =~= apply_op(top, b));
            }
        } else {
            cur.push(BrainfuckIR::SubVal(1));
            proof {
                assert(view_block(cur@) =~= apply_op(top, b));
            }
        }
    } else if b == 62 {
        let mut fused = false;
        let mut kk: u32 = 0;
        if l > 0 {
            match &cur[l - 1] {
                BrainfuckIR::PtrMovRight(k) => {
                    kk = *k;
                    fused = true;
                },
                _ => {},
            }
        }
        if fused {
            cur.set(l - 1, BrainfuckIR::PtrMovRight(kk.wrapping_add(1)));
            proof {
                assert(view_block(cur@) =~= apply_op(top, b));
            }
        } else {
            cur.push(BrainfuckIR::PtrMovRight(1));
            proof {
                assert(view_block(cur@) =~= apply_op(top, b));
            }
        }
    } else if b == 60 {
        let mut fused = false;
        let mut kk: u32 = 0;
        if l > 0 {
            match &cur[l - 1] {
                BrainfuckIR::PtrMovLeft(k) => {
                    kk = *k;
                    fused = true;
                },
                _ => {},
            }
        }
        if fused {
            cur.set(l - 1, BrainfuckIR::PtrMovLeft(kk.wrapping_add(1)));
            proof {
                assert(view_block(cur@) =~= apply_op(top, b));
            }
        } else {
            cur.push(BrainfuckIR::PtrMovLeft(1));
            proof {
                assert(view_block(cur@) =~= apply_op(top, b));
            }
        }
    } else if b == 46 {
        cur.push(BrainfuckIR::PutByte);
        proof {
            assert(view_block(cur@) =~= apply_op(top, b));
        }
    } else {
        cur.push(BrainfuckIR::GetByte);
        proof {
            assert(view_block(cur@) =~= apply_op(top, b));
        }
    }
}

/// Parse source text into the IR tree.
///
/// Every byte other than the eight instruction characters is skipped;
/// maximal runs of `+`, `-`, `>`, `<` are folded into one instruction
/// carrying the run length (truncated to the counter's width); brackets
/// must balance.
pub fn parse(src: &Vec<u8>) -> (r: Result<Vec<BrainfuckIR>, ParseError>)
    ensures
        match r {
            Ok(ir) => spec_parse(src@) == Some(view_block(ir@)),
            Err(ParseError::UnmatchedClose) => parse_stack(src@) is None,
            Err(ParseError::UnmatchedOpen) => parse_stack(src@) matches Some(st) && st.len() > 1,
        },
{
    broadcast use lemma_view_block, lemma_view_block_push;

    let mut stack: Vec<Vec<BrainfuckIR>> = Vec::new();
    let mut cur: Vec<BrainfuckIR> = Vec::new();
    let n = src.len();
    let mut i: usize = 0;
    proof {
        assert(src@.take(0) =~= Seq::<u8>::empty());
        assert(view_frames(stack@).push(view_block(cur@)) =~~= seq![Seq::<Ir>::empty()]);
    }
    while i < n
        invariant
            n == src@.len(),
            i <= n,
            parse_stack(src@.take(i as int)) == Some(view_frames(stack@).push(view_block(cur@))),
        decreases n - i,
    {
        let ghost pre = view_frames(stack@).push(view_block(cur@));
        let b = src[i];
        proof {
            assert(src@.take(i + 1).drop_last() =~= src@.take(i as int));
            assert(src@.take(i + 1).last() == b);
        }
        if b == 91 {
            stack.push(cur);
            cur = Vec::new();
            proof {
                assert(view_frames(stack@).push(view_block(cur@)) =~~= pre.push(Seq::empty()));
            }
        } else if b == 93 {
            match stack.pop() {
                None => {
                    proof {
                        assert(pre.len() == 1);
                        assert(parse_stack(src@.take(i + 1)) is None);
                        lemma_parse_stack_none_extends(src@, i + 1);
                    }
                    return Err(ParseError::UnmatchedClose);
                },
                Some(mut outer) => {
                    let ghost outer0 = outer@;
                    let ghost cur0 = cur@;
                    outer.push(BrainfuckIR::Loop(cur));
                    cur = outer;
                    proof {
                        assert(pre.len() >= 2);
                        assert(cur@.drop_last() =~= outer0);
                        assert(view_ir(cur@.last()) == Ir::Loop(view_block(cur0)));
                        assert(view_block(cur@) == view_block(outer0).push(
                            Ir::Loop(view_block(cur0)),
                        ));
                        assert(view_block(outer0) == pre[pre.len() - 2]);
                        assert(view_block(cur0) == pre.last());
                        assert(view_frames(stack@).push(view_block(cur@)) =~~= pre.drop_last()
                            .drop_last()
                            .push(pre[pre.len() - 2].push(Ir::Loop(pre.last()))));
                    }
                },
            }
        } else if b == 43 || b == 45 || b == 62 || b == 60 || b == 46 || b == 44 {
            push_op(&mut cur, b);
            proof {
                assert(view_frames(stack@).push(view_block(cur@)) =~~= pre.update(
                    pre.len() - 1,
                    apply_op(pre.last(), b),
                ));
            }
        } else {
            proof {
                assert(parse_step(pre, b) == Some(pre));
            }
        }
        i += 1;
    }
    proof {
        assert(src@.take(n as int) =~= src@);
    }
    if stack.len() == 0 {
        proof {
            assert(view_frames(stack@).push(view_block(cur@)).len() == 1);
            assert(view_frames(stack@).push(view_block(cur@))[0] == view_block(cur@));
        }
        Ok(cur)
    } else {
        Err(ParseError::UnmatchedOpen)
    }
}

} // verus!
