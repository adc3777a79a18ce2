//! The mathematical model of the machine: its state as sequences and numbers,
//! and what one instruction, one step and a whole run do to it.
use vstd::prelude::*;

use crate::instruction::{instruction_of, word_of, Instruction};

verus! {

/// Bytes of memory.
pub const MEMORY_SIZE: usize = 4096;

/// General-purpose registers.
pub const REGISTER_COUNT: usize = 16;

/// Return addresses the call stack can hold.
pub const STACK_DEPTH: usize = 16;

/// The register that arithmetic sets to 1 on a carry and to 0 otherwise.
pub const FLAG_REGISTER: usize = 15;

/// Width of one instruction in bytes.
pub const INSTRUCTION_WIDTH: usize = 2;

/// Why a run stopped other than by a halt instruction.
#[derive(Clone, Copy, Debug, PartialEq, Eq, Structural)]
pub enum Fault {
    /// No recognized pattern matches the word, which is kept.
    UnimplementedInstruction(u16),
    /// A call was made with the stack full.
    StackOverflow,
    /// A return was made with the stack empty.
    StackUnderflow,
    /// The program counter leaves no room for a two-byte instruction.
    OutOfBoundsFetch,
}

/// Why loading a program or seeding a register was refused.
#[derive(Clone, Copy, Debug, PartialEq, Eq, Structural)]
pub enum LoadError {
    /// The bytes would not fit in memory from the given address on.
    AddressOutOfRange,
    /// There is no register with the given index.
    RegisterOutOfRange,
}

/// What a step that did not fault leaves behind.
#[derive(Clone, Copy, Debug, PartialEq, Eq, Structural)]
pub enum Progress {
    /// A halt instruction was executed: the run is over.
    Halted,
    /// The machine can take another step.
    Running,
}

/// The state of the machine as mathematics sees it.
pub struct MachineView {
    pub memory: Seq<u8>,
    pub registers: Seq<u8>,
    /// The return addresses of the outstanding calls, oldest first.
    pub calls: Seq<u16>,
    /// The program counter.
    pub pc: int,
}

impl MachineView {
    /// Memory, registers and stack have their sizes; the program counter and
    /// every saved return address lie within memory or just past its end.
    pub open spec fn wf(self) -> bool {
        &&& self.memory.len() == MEMORY_SIZE
        &&& self.registers.len() == REGISTER_COUNT
        &&& self.calls.len() <= STACK_DEPTH
        &&& 0 <= self.pc <= MEMORY_SIZE
        &&& forall|i: int| 0 <= i < self.calls.len() ==> #[trigger] self.calls[i] <= MEMORY_SIZE
    }

    /// The state of a freshly built machine: everything zero.
    pub open spec fn zeroed() -> MachineView {
        MachineView {
            memory: Seq::new(MEMORY_SIZE as nat, |i: int| 0u8),
            registers: Seq::new(REGISTER_COUNT as nat, |i: int| 0u8),
            calls: Seq::empty(),
            pc: 0,
        }
    }

    /// The state with `bytes` written into memory from `address` on.
    pub open spec fn with_bytes(self, address: int, bytes: Seq<u8>) -> MachineView {
        MachineView {
            memory: Seq::new(
                self.memory.len(),
                |i: int|
                    if address <= i < address + bytes.len() {
                        bytes[i - address]
                    } else {
                        self.memory[i]
                    },
            ),
            ..self
        }
    }

    /// The state with register `index` set to `value`.
    pub open spec fn with_register(self, index: int, value: u8) -> MachineView {
        MachineView { registers: self.registers.update(index, value), ..self }
    }

    /// Two bytes at the program counter fit in memory.
    pub open spec fn can_fetch(self) -> bool {
        self.pc + 1 < MEMORY_SIZE
    }

    /// The instruction word at the program counter.
    pub open spec fn word(self) -> u16 {
        word_of(self.memory[self.pc], self.memory[self.pc + 1])
    }

    /// The state with the program counter moved past one instruction.
    pub open spec fn advanced(self) -> MachineView {
        MachineView { pc: self.pc + INSTRUCTION_WIDTH, ..self }
    }

    /// The sum of registers `x` and `y` modulo 256 goes into register `x`;
    /// then the flag register is set to 1 if the sum exceeded 255, else to 0.
    pub open spec fn after_add(self, x: int, y: int) -> MachineView {
        let sum = self.registers[x] + self.registers[y];
        MachineView {
            registers: self.registers.update(x, (sum % 256) as u8).update(
                FLAG_REGISTER as int,
                if sum > 255 { 1u8 } else { 0u8 },
            ),
            ..self
        }
    }

    /// A call to `address`: with room on the stack, the program counter is
    /// pushed and replaced by `address`; with a full stack, a stack overflow.
    pub open spec fn after_call(self, address: int) -> (MachineView, Result<(), Fault>) {
        if self.calls.len() >= STACK_DEPTH {
            (self, Err(Fault::StackOverflow))
        } else {
            (
                MachineView { calls: self.calls.push(self.pc as u16), pc: address, ..self },
                Ok(()),
            )
        }
    }

    /// A return: the newest return address is popped into the program
    /// counter; with an empty stack, a stack underflow.
    pub open spec fn after_return(self) -> (MachineView, Result<(), Fault>) {
        if self.calls.len() == 0 {
            (self, Err(Fault::StackUnderflow))
        } else {
            (
                MachineView { calls: self.calls.drop_last(), pc: self.calls.last() as int, ..self },
                Ok(()),
            )
        }
    }

    /// Executes a decoded instruction on a state whose program counter has
    /// already been advanced.
    pub open spec fn execute(self, ins: Instruction) -> (MachineView, Result<Progress, Fault>) {
        match ins {
            Instruction::Halt => (self, Ok(Progress::Halted)),
            Instruction::Return => continuing(self.after_return()),
            Instruction::Call(address) => continuing(self.after_call(address as int)),
            Instruction::AddXY(x, y) => (self.after_add(x as int, y as int), Ok(Progress::Running)),
            Instruction::Unknown(word) => (self, Err(Fault::UnimplementedInstruction(word))),
        }
    }

    /// One step: fetch, advance the program counter, decode, execute.
    pub open spec fn step(self) -> (MachineView, Result<Progress, Fault>) {
        if !self.can_fetch() {
            (self, Err(Fault::OutOfBoundsFetch))
        } else {
            self.advanced().execute(instruction_of(self.word()))
        }
    }

    /// The end of a run from this state if it ends within `fuel` steps: the
    /// final state, and `Ok` on a halt or the fault that stopped it.
    pub open spec fn run_within(self, fuel: nat) -> Option<(MachineView, Result<(), Fault>)>
        decreases fuel,
    {
        if fuel == 0 {
            None
        } else {
            let (next, r) = self.step();
            match r {
                Ok(Progress::Running) => next.run_within((fuel - 1) as nat),
                Ok(Progress::Halted) => Some((next, Ok(()))),
                Err(f) => Some((next, Err(f))),
            }
        }
    }

    /// A run from this state ends in state `last` with result `r`.
    pub open spec fn runs_to(self, last: MachineView, r: Result<(), Fault>) -> bool {
        exists|fuel: nat| self.run_within(fuel) == Some((last, r))
    }
}

/// A handler's outcome as the outcome of a step that goes on.
pub open spec fn continuing(o: (MachineView, Result<(), Fault>)) -> (
    MachineView,
    Result<Progress, Fault>,
) {
    match o.1 {
        Ok(()) => (o.0, Ok(Progress::Running)),
        Err(f) => (o.0, Err(f)),
    }
}

} // verus!
