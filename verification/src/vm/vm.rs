use crate::ir::{lemma_view_block, view_block, view_ir, BrainfuckIR, Ir};
use crate::vm::{VMInterface, IO, MEMORY_SIZE};
use vstd::prelude::*;

verus! {

/// Why a run stopped before its program was exhausted.
#[derive(Debug, Clone, Copy, PartialEq, Eq, Structural)]
pub enum RuntimeError {
    /// `,` found the input exhausted.
    IO,
    /// A pointer move would have left `[0, MEMORY_SIZE)`.
    Overflow,
    /// The run exceeded the executor's loop-iteration bound.
    StepLimit,
}

/// One machine state of the reference semantics: the tape, the pointer into
/// it, the bytes still to be read, and the bytes written so far.
#[verifier::ext_equal]
pub struct State {
    pub tape: Seq<u8>,
    pub ptr: int,
    pub input: Seq<u8>,
    pub output: Seq<u8>,
}

/// The state a run starts from: a zeroed tape, the pointer at cell 0, the
/// whole input ahead, nothing written.
pub open spec fn init_state(input: Seq<u8>) -> State {
    State {
        tape: Seq::new(MEMORY_SIZE as nat, |i: int| 0u8),
        ptr: 0,
        input,
        output: Seq::empty(),
    }
}

/// Reference semantics of one instruction.
///
/// `fuel` bounds how often loops may be unfolded: `None` means the program
/// was still running when the bound ran out.  Cell arithmetic wraps modulo
/// 256; a pointer move that would leave the tape stops the run with
/// `Overflow`, `,` on exhausted input stops it with `IO`; in both cases the
/// state is left as it was.  A loop re-reads the cell under the pointer
/// before every iteration and runs its body only while that byte is nonzero.
pub open spec fn sem_instr(node: Ir, st: State, fuel: nat) -> Option<(State, Result<(), RuntimeError>)>
    decreases fuel, node,
{
    match node {
        Ir::AddVal(n) => Some(
            (
                State {
                    tape: st.tape.update(
                        st.ptr,
                        vstd::wrapping::u8_specs::wrapping_add(st.tape[st.ptr], n),
                    ),
                    ..st
                },
                Ok(()),
            ),
        ),
        Ir::SubVal(n) => Some(
            (
                State {
                    tape: st.tape.update(
                        st.ptr,
                        vstd::wrapping::u8_specs::wrapping_sub(st.tape[st.ptr], n),
                    ),
                    ..st
                },
                Ok(()),
            ),
        ),
        Ir::PtrMovRight(n) => if st.ptr + n < MEMORY_SIZE {
            Some((State { ptr: st.ptr + n, ..st }, Ok(())))
        } else {
            Some((st, Err(RuntimeError::Overflow)))
        },
        Ir::PtrMovLeft(n) => if st.ptr - n >= 0 {
            Some((State { ptr: st.ptr - n, ..st }, Ok(())))
        } else {
            Some((st, Err(RuntimeError::Overflow)))
        },
        Ir::PutByte => Some((State { output: st.output.push(st.tape[st.ptr]), ..st }, Ok(()))),
        Ir::GetByte => if st.input.len() > 0 {
            Some(
                (
                    State {
                        tape: st.tape.update(st.ptr, st.input[0]),
                        input: st.input.skip(1),
                        ..st
                    },
                    Ok(()),
                ),
            )
        } else {
            Some((st, Err(RuntimeError::IO)))
        },
        Ir::Loop(body) => {
            if st.tape[st.ptr] == 0 {
                Some((st, Ok(())))
            } else if fuel == 0 {
                None
            } else {
                match sem_block(body, st, (fuel - 1) as nat) {
                    None => None,
                    Some((st1, r)) => if r is Ok {
                        sem_instr(node, st1, (fuel - 1) as nat)
                    } else {
                        Some((st1, r))
                    },
                }
            }
        },
    }
}

/// Reference semantics of a block: its instructions run in order until one
/// of them stops the run.
pub open spec fn sem_block(prog: Seq<Ir>, st: State, fuel: nat) -> Option<(State, Result<(), RuntimeError>)>
    decreases fuel, prog,
{
    if prog.len() == 0 {
        Some((st, Ok(())))
    } else {
        match sem_instr(prog[0], st, fuel) {
            None => None,
            Some((st1, r)) => if r is Ok {
                sem_block(prog.subrange(1, prog.len() as int), st1, fuel)
            } else {
                Some((st1, r))
            },
        }
    }
}

/// Executing an empty program changes nothing and produces no output.
pub proof fn lemma_empty_program_no_op(st: State, fuel: nat)
    ensures
        sem_block(Seq::empty(), st, fuel) == Some((st, Ok::<(), RuntimeError>(()))),
{
}

/// A loop whose cell is zero on entry never runs its body: the whole state
/// — pointer, tape, channels — is exactly as it was.
pub proof fn lemma_loop_zero_entry(body: Seq<Ir>, st: State, fuel: nat)
    requires
        st.tape[st.ptr] == 0,
    ensures
        sem_instr(Ir::Loop(body), st, fuel) == Some((st, Ok::<(), RuntimeError>(()))),
{
}

/// Cell arithmetic is arithmetic modulo 256: `AddVal`/`SubVal` leave
/// `(cell ± n) mod 256` under the pointer and touch nothing else.
pub proof fn lemma_cell_arith_mod_256(node: Ir, st: State, fuel: nat)
    requires
        node is AddVal || node is SubVal,
    ensures
        node matches Ir::AddVal(n) ==> sem_instr(node, st, fuel) == Some(
            (
                State {
                    tape: st.tape.update(st.ptr, (((st.tape[st.ptr] + n) % 256) as u8)),
                    ..st
                },
                Ok::<(), RuntimeError>(()),
            ),
        ),
        node matches Ir::SubVal(n) ==> sem_instr(node, st, fuel) == Some(
            (
                State {
                    tape: st.tape.update(st.ptr, (((st.tape[st.ptr] - n + 256) % 256) as u8)),
                    ..st
                },
                Ok::<(), RuntimeError>(()),
            ),
        ),
{
    match node {
        Ir::AddVal(n) => {
            assert(vstd::wrapping::u8_specs::wrapping_add(st.tape[st.ptr], n) == ((st.tape[st.ptr]
                + n) % 256) as u8);
        },
        Ir::SubVal(n) => {
            assert(vstd::wrapping::u8_specs::wrapping_sub(st.tape[st.ptr], n) == ((st.tape[st.ptr]
                - n + 256) % 256) as u8);
        },
        _ => {},
    }
}

/// Two consecutive additions fuse: adding `a` then `b` is adding
/// `(a + b) mod 256` in one step.  With `a + b ≡ 0 (mod 256)` — for
/// instance 256 single increments — the cell returns to its original
/// value.
pub proof fn lemma_adds_fuse(st: State, fuel: nat, a: u8, b: u8)
    requires
        0 <= st.ptr < st.tape.len(),
    ensures
        sem_block(seq![Ir::AddVal(a), Ir::AddVal(b)], st, fuel) == sem_instr(
            Ir::AddVal(vstd::wrapping::u8_specs::wrapping_add(a, b)),
            st,
            fuel,
        ),
{
    reveal_with_fuel(sem_block, 4);
    let prog = seq![Ir::AddVal(a), Ir::AddVal(b)];
    let st1 = sem_instr(prog[0], st, fuel)->Some_0.0;
    assert(prog.subrange(1, 2) =~= seq![Ir::AddVal(b)]);
    assert(prog.subrange(1, 2).subrange(1, 1) =~= Seq::<Ir>::empty());
    let st2 = sem_instr(Ir::AddVal(b), st1, fuel)->Some_0.0;
    let stf = sem_instr(Ir::AddVal(vstd::wrapping::u8_specs::wrapping_add(a, b)), st, fuel)
        ->Some_0.0;
    assert(st2.tape =~= stf.tape);
    assert(st2 =~= stf);
}

/// Adding zero — for instance a run of 256 increments, whose count
/// truncates to zero — is a no-op.
pub proof fn lemma_add_zero_no_op(st: State, fuel: nat)
    requires
        0 <= st.ptr < st.tape.len(),
    ensures
        sem_instr(Ir::AddVal(0), st, fuel) == Some((st, Ok::<(), RuntimeError>(()))),
{
    let st1 = sem_instr(Ir::AddVal(0), st, fuel)->Some_0.0;
    assert(st1.tape =~= st.tape);
    assert(st1 =~= st);
}

/// A source of `N` consecutive `+` parses to a single instruction, and
/// executing it adds `N mod 256` to the cell under the pointer.
pub proof fn lemma_plus_run_adds_mod_256(s: Seq<u8>, st: State, fuel: nat)
    requires
        s.len() >= 1,
        forall|i: int| 0 <= i < s.len() ==> #[trigger] s[i] == 43,
        0 <= st.ptr < st.tape.len(),
    ensures
        crate::ir::spec_parse(s) == Some(seq![Ir::AddVal((s.len() % 256) as u8)]),
        sem_block(crate::ir::spec_parse(s)->Some_0, st, fuel) == Some(
            (
                State {
                    tape: st.tape.update(st.ptr, (((st.tape[st.ptr] + s.len()) % 256) as u8)),
                    ..st
                },
                Ok::<(), RuntimeError>(()),
            ),
        ),
{
    reveal_with_fuel(sem_block, 3);
    crate::ir::lemma_run_folds(s, 43);
    let prog = seq![Ir::AddVal((s.len() % 256) as u8)];
    assert(prog.subrange(1, 1) =~= Seq::<Ir>::empty());
    let st1 = sem_instr(prog[0], st, fuel)->Some_0.0;
    assert(st1.tape == st.tape.update(
        st.ptr,
        vstd::wrapping::u8_specs::wrapping_add(st.tape[st.ptr], ((s.len() % 256) as u8)),
    ));
    assert((st.tape[st.ptr] + (s.len() % 256)) % 256 == (st.tape[st.ptr] + s.len()) % 256);
    assert(st1 =~= State {
        tape: st.tape.update(st.ptr, (((st.tape[st.ptr] + s.len()) % 256) as u8)),
        ..st
    });
}

/// Tape isolation: a straight-line instruction writes at most the cell
/// under the pointer; every other cell keeps its byte, and the tape keeps
/// its length.
pub proof fn lemma_tape_isolation(node: Ir, st: State, fuel: nat)
    requires
        !(node is Loop),
        0 <= st.ptr < st.tape.len(),
    ensures
        sem_instr(node, st, fuel) is Some,
        ({
            let st1 = sem_instr(node, st, fuel)->Some_0.0;
            st1.tape.len() == st.tape.len() && forall|j: int|
                0 <= j < st.tape.len() && j != st.ptr ==> st1.tape[j] == st.tape[j]
        }),
{
}

/// The tape, the input and output channels: what a tree-walking run mutates.
pub struct VMContext {
    pub memory: Vec<u8>,
    pub io: IO,
}

impl VMContext {
    /// The tape has its fixed length and the input cursor is in bounds.
    pub open spec fn wf(&self) -> bool {
        self.memory@.len() == MEMORY_SIZE && self.io.wf()
    }

    /// The machine state this context holds, for a given pointer value.
    pub open spec fn state(&self, ptr: int) -> State {
        State {
            tape: self.memory@,
            ptr,
            input: self.io.remaining(),
            output: self.io.output@,
        }
    }

    /// Run a block of instructions: the tree-walking reference executor.
    ///
    /// `fuel` bounds how many loop iterations the run may still take; a run
    /// that would exceed it stops with `StepLimit`.  Everything else is
    /// exactly `sem_block`.
    #[verifier::loop_isolation(false)]
    #[verifier::rlimit(100)]
    pub fn run_block(&mut self, block: &Vec<BrainfuckIR>, ptr: &mut usize, fuel: u64) -> (r: Result<
        (),
        RuntimeError,
    >)
        requires
            old(self).wf(),
            *old(ptr) < MEMORY_SIZE,
        ensures
            final(self).wf(),
            *final(ptr) < MEMORY_SIZE,
            match sem_block(view_block(block@), old(self).state(*old(ptr) as int), fuel as nat) {
                Some((st, res)) => final(self).state(*final(ptr) as int) == st && r == res,
                None => r == Err::<(), RuntimeError>(RuntimeError::StepLimit),
            },
        decreases fuel,
    {
        broadcast use lemma_view_block;

        let ghost prog = view_block(block@);
        let ghost st0 = self.state(*ptr as int);
        let n = block.len();
        let mut pc: usize = 0;
        proof {
            assert(prog.subrange(0, prog.len() as int) =~= prog);
        }
        while pc < n
            invariant
                self.wf(),
                *ptr < MEMORY_SIZE,
                pc <= n,
                sem_block(prog, st0, fuel as nat) == sem_block(
                    prog.subrange(pc as int, prog.len() as int),
                    self.state(*ptr as int),
                    fuel as nat,
                ),
            decreases n - pc,
        {
            let ghost rest = prog.subrange(pc as int, prog.len() as int);
            let ghost mid = self.state(*ptr as int);
            proof {
                assert(rest[0] == view_ir(block@[pc as int]));
                assert(rest.subrange(1, rest.len() as int) =~= prog.subrange(
                    pc as int + 1,
                    prog.len() as int,
                ));
            }
            match &block[pc] {
                BrainfuckIR::AddVal(v) => {
                    let idx = *ptr;
                    let cell = self.memory[idx];
                    self.memory.set(idx, cell.wrapping_add(*v));
                    proof {
                        assert(self.state(*ptr as int) =~= State {
                            tape: mid.tape.update(
                                mid.ptr,
                                vstd::wrapping::u8_specs::wrapping_add(mid.tape[mid.ptr], *v),
                            ),
                            ..mid
                        });
                        assert(sem_instr(rest[0], mid, fuel as nat) == Some(
                            (self.state(*ptr as int), Ok::<(), RuntimeError>(())),
                        ));
                    }
                },
                BrainfuckIR::SubVal(v) => {
                    let idx = *ptr;
                    let cell = self.memory[idx];
                    self.memory.set(idx, cell.wrapping_sub(*v));
                    proof {
                        assert(self.state(*ptr as int) =~= State {
                            tape: mid.tape.update(
                                mid.ptr,
                                vstd::wrapping::u8_specs::wrapping_sub(mid.tape[mid.ptr], *v),
                            ),
                            ..mid
                        });
                        assert(sem_instr(rest[0], mid, fuel as nat) == Some(
                            (self.state(*ptr as int), Ok::<(), RuntimeError>(())),
                        ));
                    }
                },
                BrainfuckIR::PtrMovRight(v) => {
                    let np: u64 = (*ptr as u64) + (*v as u64);
                    if np < MEMORY_SIZE as u64 {
                        *ptr = np as usize;
                        proof {
                            assert(self.state(*ptr as int) =~= State { ptr: mid.ptr + *v, ..mid });
                            assert(sem_instr(rest[0], mid, fuel as nat) == Some(
                                (self.state(*ptr as int), Ok::<(), RuntimeError>(())),
                            ));
                        }
                    } else {
                        proof {
                            assert(sem_instr(rest[0], mid, fuel as nat) == Some(
                                (mid, Err::<(), RuntimeError>(RuntimeError::Overflow)),
                            ));
                        }
                        return Err(RuntimeError::Overflow);
                    }
                },
                BrainfuckIR::PtrMovLeft(v) => {
                    if (*v as u64) <= (*ptr as u64) {
                        let np: u64 = (*ptr as u64) - (*v as u64);
                        *ptr = np as usize;
                        proof {
                            assert(self.state(*ptr as int) =~= State { ptr: mid.ptr - *v, ..mid });
                            assert(sem_instr(rest[0], mid, fuel as nat) == Some(
                                (self.state(*ptr as int), Ok::<(), RuntimeError>(())),
                            ));
                        }
                    } else {
                        proof {
                            assert(sem_instr(rest[0], mid, fuel as nat) == Some(
                                (mid, Err::<(), RuntimeError>(RuntimeError::Overflow)),
                            ));
                        }
                        return Err(RuntimeError::Overflow);
                    }
                },
                BrainfuckIR::PutByte => {
                    let idx = *ptr;
                    let cell = self.memory[idx];
                    self.io.output.push(cell);
                    proof {
                        assert(self.state(*ptr as int) =~= State {
                            output: mid.output.push(mid.tape[mid.ptr]),
                            ..mid
                        });
                        assert(sem_instr(rest[0], mid, fuel as nat) == Some(
                            (self.state(*ptr as int), Ok::<(), RuntimeError>(())),
                        ));
                    }
                },
                BrainfuckIR::GetByte => {
                    if self.io.cursor < self.io.input.len() {
                        let b = self.io.input[self.io.cursor];
                        self.io.cursor = self.io.cursor + 1;
                        let idx = *ptr;
                        self.memory.set(idx, b);
                        proof {
                            assert(mid.input[0] == b);
                            assert(self.io.remaining() =~= mid.input.skip(1));
                            assert(self.state(*ptr as int) =~= State {
                                tape: mid.tape.update(mid.ptr, mid.input[0]),
                                input: mid.input.skip(1),
                                ..mid
                            });
                            assert(sem_instr(rest[0], mid, fuel as nat) == Some(
                                (self.state(*ptr as int), Ok::<(), RuntimeError>(())),
                            ));
                        }
                    } else {
                        proof {
                            assert(mid.input.len() == 0);
                            assert(sem_instr(rest[0], mid, fuel as nat) == Some(
                                (mid, Err::<(), RuntimeError>(RuntimeError::IO)),
                            ));
                        }
                        return Err(RuntimeError::IO);
                    }
                },
                BrainfuckIR::Loop(body) => {
                    let ghost lnode = rest[0];
                    let ghost st_enter = mid;
                    proof {
                        assert(lnode == Ir::Loop(view_block(body@)));
                    }
                    let mut f: u64 = fuel;
                    while self.memory[*ptr] != 0
                        invariant
                            self.wf(),
                            *ptr < MEMORY_SIZE,
                            f <= fuel,
                            sem_instr(lnode, st_enter, fuel as nat) == sem_instr(
                                lnode,
                                self.state(*ptr as int),
                                f as nat,
                            ),
                        decreases f,
                    {
                        let ghost cur = self.state(*ptr as int);
                        let ghost f_old = f;
                        if f == 0 {
                            proof {
                                assert(sem_instr(lnode, cur, 0nat) is None);
                                assert(sem_block(prog, st0, fuel as nat) is None);
                            }
                            return Err(RuntimeError::StepLimit);
                        }
                        f = f - 1;
                        match self.run_block(body, ptr, f) {
                            Ok(()) => {
                                proof {
                                    assert(sem_instr(lnode, cur, f_old as nat) == sem_instr(
                                        lnode,
                                        self.state(*ptr as int),
                                        f as nat,
                                    ));
                                }
                            },
                            Err(e) => {
                                proof {
                                    match sem_block(view_block(body@), cur, f as nat) {
                                        Some((st1, res)) => {
                                            assert(sem_instr(lnode, cur, f_old as nat) == Some(
                                                (st1, res),
                                            ));
                                        },
                                        None => {
                                            assert(sem_instr(lnode, cur, f_old as nat) is None);
                                            assert(sem_block(prog, st0, fuel as nat) is None);
                                        },
                                    }
                                }
                                return Err(e);
                            },
                        }
                    }
                    proof {
                        assert(sem_instr(lnode, self.state(*ptr as int), f as nat) == Some(
                            (self.state(*ptr as int), Ok::<(), RuntimeError>(())),
                        ));
                    }
                },
            }
            proof {
                assert(sem_block(rest, mid, fuel as nat) == sem_block(
                    prog.subrange(pc as int + 1, prog.len() as int),
                    self.state(*ptr as int),
                    fuel as nat,
                ));
            }
            pc = pc + 1;
        }
        proof {
            assert(prog.subrange(n as int, prog.len() as int).len() == 0);
        }
        Ok(())
    }
}

/// Fill a vector with `n` zero bytes.
fn zero_vec(n: usize) -> (v: Vec<u8>)
    ensures
        v@ == Seq::new(n as nat, |i: int| 0u8),
{
    let mut v: Vec<u8> = Vec::new();
    let mut i: usize = 0;
    while i < n
        invariant
            i <= n,
            v@.len() == i,
            forall|j: int| 0 <= j < i ==> v@[j] == 0,
        decreases n - i,
    {
        v.push(0);
        i = i + 1;
    }
    proof {
        assert(v@ =~= Seq::new(n as nat, |i: int| 0u8));
    }
    v
}

/// The tree-walking reference executor.
pub struct VM {
    pub ir: Vec<BrainfuckIR>,
    pub context: VMContext,
    pub ptr: usize,
}

impl VMInterface for VM {
    open spec fn wf(&self) -> bool {
        self.context.wf() && self.ptr < MEMORY_SIZE
    }

    open spec fn prog(&self) -> Seq<Ir> {
        view_block(self.ir@)
    }

    open spec fn st(&self) -> State {
        self.context.state(self.ptr as int)
    }

    fn new(ir: Vec<BrainfuckIR>, input: Vec<u8>) -> (r: Result<Self, RuntimeError>) {
        let ghost inp = input@;
        let memory = zero_vec(MEMORY_SIZE);
        let vm = VM {
            ir,
            context: VMContext { memory, io: IO { input, cursor: 0, output: Vec::new() } },
            ptr: 0,
        };
        proof {
            assert(vm.context.io.remaining() =~= inp);
            assert(vm.st() =~= init_state(inp));
        }
        Ok(vm)
    }

    fn run(&mut self) -> (r: Result<(), RuntimeError>) {
        self.context.run_block(&self.ir, &mut self.ptr, u64::MAX)
    }
}

impl VM {
    /// The bytes the program has written so far.
    pub fn output(&self) -> (r: &Vec<u8>)
        ensures
            r@ == self.st().output,
    {
        &self.context.io.output
    }
}

} // verus!
