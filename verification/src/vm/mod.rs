pub mod cranelift;
pub mod llvm;
pub mod vm;

pub use vm::RuntimeError;
pub use vm::State;
pub use vm::VM;
pub use vm::VMContext;

use crate::ir::{view_block, BrainfuckIR, Ir};
use vstd::prelude::*;

verus! {

/// Length of the tape: 4 MiB of zero-initialized cells.
pub const MEMORY_SIZE: usize = 4 * 1024 * 1024;

/// The two byte channels an executor owns for the duration of a run: the
/// bytes still to be read from input, and the bytes written to output so
/// far.  `cursor` marks how much of `input` has been consumed.
pub struct IO {
    pub input: Vec<u8>,
    pub cursor: usize,
    pub output: Vec<u8>,
}

impl IO {
    /// The cursor never runs past the end of the input.
    pub open spec fn wf(&self) -> bool {
        self.cursor <= self.input@.len()
    }

    /// The bytes not yet consumed.
    pub open spec fn remaining(&self) -> Seq<u8> {
        self.input@.skip(self.cursor as int)
    }
}

/// An executor: built from an IR tree and the program's input, it runs the
/// program and leaves the produced bytes in its output channel.
///
/// `run` is specified against the reference semantics `sem_block`, with a
/// step bound of `u64::MAX` loop iterations; a run that would outlive the
/// bound reports `RuntimeError::StepLimit` instead of diverging.
pub trait VMInterface: Sized {
    /// The executor's representation invariant.
    spec fn wf(&self) -> bool;

    /// The program it executes.
    spec fn prog(&self) -> Seq<Ir>;

    /// The machine state it currently holds.
    spec fn st(&self) -> vm::State;

    fn new(ir: Vec<BrainfuckIR>, input: Vec<u8>) -> (r: Result<Self, vm::RuntimeError>)
        ensures
            r is Ok,
            r matches Ok(v) ==> v.wf() && v.prog() == view_block(ir@) && v.st() == vm::init_state(
                input@,
            ),
    ;

    fn run(&mut self) -> (r: Result<(), vm::RuntimeError>)
        requires
            old(self).wf(),
        ensures
            final(self).wf(),
            final(self).prog() == old(self).prog(),
            match vm::sem_block(old(self).prog(), old(self).st(), u64::MAX as nat) {
                Some((st, res)) => final(self).st() == st && r == res,
                None => r == Err::<(), vm::RuntimeError>(vm::RuntimeError::StepLimit),
            },
    ;
}

} // verus!
