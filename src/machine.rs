//! The machine itself: its state, the handlers of the instruction set, and
//! the fetch-decode-execute loop.
use vstd::prelude::*;

use crate::instruction::{combine, decode, Instruction};
use crate::rank::{lemma_rank_bounded, lemma_step_raises_rank, rank, rank_limit};
use crate::state::{
    Fault, LoadError, MachineView, Progress, FLAG_REGISTER, INSTRUCTION_WIDTH, MEMORY_SIZE, REGISTER_COUNT,
    STACK_DEPTH,
};

verus! {

/// The machine: memory, registers, call stack, stack pointer and program
/// counter.
pub struct CPU {
    memory: [u8; 4096],
    stack: [u16; 16],
    stack_pointer: usize,
    registers: [u8; 16],
    position_in_memory: usize,
}

impl View for CPU {
    type V = MachineView;

    /// Only the stack entries below the stack pointer are outstanding calls.
    closed spec fn view(&self) -> MachineView {
        MachineView {
            memory: self.memory@,
            registers: self.registers@,
            calls: self.stack@.subrange(0, self.stack_pointer as int),
            pc: self.position_in_memory as int,
        }
    }
}

impl CPU {
    /// The stack pointer stays within the stack, and the model is well formed.
    pub closed spec fn wf(&self) -> bool {
        &&& self.stack_pointer <= STACK_DEPTH
        &&& self@.wf()
    }

    /// A machine with all of its state zeroed.
    pub fn new() -> (r: CPU)
        ensures
            r.wf(),
            r@ == MachineView::zeroed(),
    {
        let r = CPU {
            memory: [0u8; 4096],
            stack: [0u16; 16],
            stack_pointer: 0,
            registers: [0u8; 16],
            position_in_memory: 0,
        };
        assert(r@.memory =~= MachineView::zeroed().memory);
        assert(r@.registers =~= MachineView::zeroed().registers);
        assert(r@.calls =~= MachineView::zeroed().calls);
        r
    }

    /// Writes `bytes` into memory from `address` on. Bytes that would not
    /// all fit are refused, and memory is left as it was.
    pub fn write_memory(&mut self, address: usize, bytes: &[u8]) -> (r: Result<(), LoadError>)
        requires
            old(self).wf(),
        ensures
            final(self).wf(),
            if address + bytes@.len() <= MEMORY_SIZE {
                &&& r == Ok::<(), LoadError>(())
                &&& final(self)@ == old(self)@.with_bytes(address as int, bytes@)
            } else {
                &&& r == Err::<(), LoadError>(LoadError::AddressOutOfRange)
                &&& final(self)@ == old(self)@
            },
    {
        if address > MEMORY_SIZE || bytes.len() > MEMORY_SIZE - address {
            return Err(LoadError::AddressOutOfRange);
        }
        let n = bytes.len();
        let mut i: usize = 0;
        while i < n
            invariant
                i <= n == bytes@.len(),
                address + n <= MEMORY_SIZE,
                self.wf(),
                self@.registers == old(self)@.registers,
                self@.calls == old(self)@.calls,
                self@.pc == old(self)@.pc,
                forall|j: int|
                    0 <= j < MEMORY_SIZE ==> #[trigger] self@.memory[j] == if address <= j
                        < address + i {
                        bytes@[j - address]
                    } else {
                        old(self)@.memory[j]
                    },
            decreases n - i,
        {
            self.memory[address + i] = bytes[i];
            i += 1;
        }
        assert(self@.memory =~= old(self)@.with_bytes(address as int, bytes@).memory);
        Ok(())
    }

    /// Sets register `index` to `value`; an index past the last register is
    /// refused and nothing changes.
    pub fn set_register(&mut self, index: usize, value: u8) -> (r: Result<(), LoadError>)
        requires
            old(self).wf(),
        ensures
            final(self).wf(),
            if index < REGISTER_COUNT {
                &&& r == Ok::<(), LoadError>(())
                &&& final(self)@ == old(self)@.with_register(index as int, value)
            } else {
                &&& r == Err::<(), LoadError>(LoadError::RegisterOutOfRange)
                &&& final(self)@ == old(self)@
            },
    {
        if index >= REGISTER_COUNT {
            return Err(LoadError::RegisterOutOfRange);
        }
        self.registers[index] = value;
        assert(self@.registers =~= old(self)@.with_register(index as int, value).registers);
        Ok(())
    }

    /// The value of register `index`.
    pub fn register(&self, index: usize) -> (r: u8)
        requires
            self.wf(),
            index < REGISTER_COUNT,
        ensures
            r == self@.registers[index as int],
    {
        self.registers[index]
    }

    /// A copy of all sixteen registers.
    pub fn registers(&self) -> (r: [u8; 16])
        requires
            self.wf(),
        ensures
            r@ == self@.registers,
    {
        self.registers
    }

    /// The byte at `address`.
    pub fn memory_at(&self, address: usize) -> (r: u8)
        requires
            self.wf(),
            address < MEMORY_SIZE,
        ensures
            r == self@.memory[address as int],
    {
        self.memory[address]
    }

    /// The program counter.
    pub fn program_counter(&self) -> (r: usize)
        ensures
            r == self@.pc,
    {
        self.position_in_memory
    }

    /// How many calls are outstanding.
    pub fn stack_pointer(&self) -> (r: usize)
        requires
            self.wf(),
        ensures
            r == self@.calls.len(),
    {
        self.stack_pointer
    }

    /// Reads the instruction word at the program counter, high byte first.
    pub fn read_opcode(&self) -> (r: u16)
        requires
            self.wf(),
            self@.can_fetch(),
        ensures
            r == self@.word(),
    {
        let p = self.position_in_memory;
        combine(self.memory[p], self.memory[p + 1])
    }

    /// Adds register `y` into register `x`, wrapping, and sets the flag
    /// register to 1 on a carry, else to 0.
    pub fn add_xy(&mut self, x: u8, y: u8)
        requires
            old(self).wf(),
            x < REGISTER_COUNT,
            y < REGISTER_COUNT,
        ensures
            final(self).wf(),
            final(self)@ == old(self)@.after_add(x as int, y as int),
    {
        let arg1 = self.registers[x as usize];
        let arg2 = self.registers[y as usize];
        let sum = arg1 as u16 + arg2 as u16;
        self.registers[x as usize] = (sum % 256) as u8;
        if sum > 255 {
            self.registers[FLAG_REGISTER] = 1;
        } else {
            self.registers[FLAG_REGISTER] = 0;
        }
        assert(self@.registers =~= old(self)@.after_add(x as int, y as int).registers);
        assert(self@.calls =~= old(self)@.calls);
    }

    /// Calls the subroutine at `addr`: pushes the program counter and jumps.
    /// With all of the stack in use the call is refused as a stack overflow
    /// and nothing changes.
    pub fn call(&mut self, addr: u16) -> (r: Result<(), Fault>)
        requires
            old(self).wf(),
            addr < MEMORY_SIZE,
        ensures
            final(self).wf(),
            (final(self)@, r) == old(self)@.after_call(addr as int),
    {
        let sp = self.stack_pointer;
        if sp >= STACK_DEPTH {
            return Err(Fault::StackOverflow);
        }
        self.stack[sp] = self.position_in_memory as u16;
        self.stack_pointer = sp + 1;
        self.position_in_memory = addr as usize;
        assert(self@.calls =~= old(self)@.calls.push(old(self)@.pc as u16));
        Ok(())
    }

    /// Returns from the current subroutine: pops the newest return address
    /// into the program counter. With an empty stack the return is refused
    /// as a stack underflow and nothing changes.
    pub fn ret(&mut self) -> (r: Result<(), Fault>)
        requires
            old(self).wf(),
        ensures
            final(self).wf(),
            (final(self)@, r) == old(self)@.after_return(),
    {
        if self.stack_pointer == 0 {
            return Err(Fault::StackUnderflow);
        }
        self.stack_pointer -= 1;
        assert(old(self)@.calls[self.stack_pointer as int] == self.stack@[self.stack_pointer as int]);
        self.position_in_memory = self.stack[self.stack_pointer] as usize;
        assert(self@.calls =~= old(self)@.calls.drop_last());
        Ok(())
    }

    /// One fetch-decode-execute step. The program counter is advanced past
    /// the instruction before the instruction runs.
    pub fn step(&mut self) -> (r: Result<Progress, Fault>)
        requires
            old(self).wf(),
        ensures
            final(self).wf(),
            (final(self)@, r) == old(self)@.step(),
    {
        if self.position_in_memory + 1 >= MEMORY_SIZE {
            return Err(Fault::OutOfBoundsFetch);
        }
        let opcode = self.read_opcode();
        self.position_in_memory += INSTRUCTION_WIDTH;
        let ins = decode(opcode);
        assert(self@ == old(self)@.advanced());
        match ins {
            Instruction::Halt => Ok(Progress::Halted),
            Instruction::Return => match self.ret() {
                Ok(()) => Ok(Progress::Running),
                Err(f) => Err(f),
            },
            Instruction::Call(addr) => match self.call(addr) {
                Ok(()) => Ok(Progress::Running),
                Err(f) => Err(f),
            },
            Instruction::AddXY(x, y) => {
                self.add_xy(x, y);
                Ok(Progress::Running)
            },
            Instruction::Unknown(word) => Err(Fault::UnimplementedInstruction(word)),
        }
    }

    /// Runs fetch-decode-execute steps until a halt instruction or a fault.
    /// Every run ends: `Ok` after a halt, or the fault that stopped it.
    pub fn run(&mut self) -> (r: Result<(), Fault>)
        requires
            old(self).wf(),
        ensures
            final(self).wf(),
            old(self)@.runs_to(final(self)@, r),
    {
        let ghost start = self@;
        let ghost mut taken: nat = 0;
        proof {
            lemma_rank_bounded(self@);
        }
        loop
            invariant
                self.wf(),
                start == old(self)@,
                0 <= rank(self@) < rank_limit(),
                forall|fuel: nat| #[trigger]
                    start.run_within(taken + fuel) == self@.run_within(fuel),
            decreases rank_limit() - rank(self@),
        {
            let ghost before = self@;
            let r = self.step();
            match r {
                Ok(Progress::Running) => {
                    proof {
                        lemma_step_raises_rank(before);
                        lemma_rank_bounded(self@);
                        assert forall|fuel: nat|
                            #[trigger] start.run_within(taken + 1 + fuel) == self@.run_within(
                                fuel,
                            ) by {
                            assert(start.run_within(taken + (fuel + 1)) == before.run_within(
                                fuel + 1,
                            ));
                        }
                        taken = taken + 1;
                    }
                },
                Ok(Progress::Halted) => {
                    assert(before.run_within(1) == Some((self@, Ok::<(), Fault>(()))));
                    assert(start.run_within(taken + 1) == before.run_within(1));
                    assert(start.run_within(taken + 1) == Some((self@, Ok::<(), Fault>(()))));
                    return Ok(());
                },
                Err(f) => {
                    assert(before.run_within(1) == Some((self@, Err::<(), Fault>(f))));
                    assert(start.run_within(taken + 1) == before.run_within(1));
                    assert(start.run_within(taken + 1) == Some((self@, Err::<(), Fault>(f))));
                    return Err(f);
                },
            }
        }
    }
}

} // verus!
