//! Properties of the machine that relate several of its operations or hold
//! for all inputs, proved over the model.
use vstd::prelude::*;

use crate::instruction::{group_of, instruction_of, sub_of, x_of, y_of, Instruction};
use crate::state::{continuing, Fault, MachineView, Progress, FLAG_REGISTER, STACK_DEPTH};

verus! {

/// The state and result of making calls to `addrs`, in order, stopping at the
/// first refused one.
pub open spec fn call_chain(s: MachineView, addrs: Seq<int>) -> (MachineView, Result<(), Fault>)
    decreases addrs.len(),
{
    if addrs.len() == 0 {
        (s, Ok(()))
    } else {
        let (t, r) = call_chain(s, addrs.drop_last());
        match r {
            Ok(()) => t.after_call(addrs.last()),
            Err(f) => (t, Err(f)),
        }
    }
}

/// Adding register `y` into register `x`, for any two byte values, leaves
/// their sum modulo 256 in register `x` and sets the flag register to 1 exactly
/// when the sum exceeds 255, else to 0; nothing else changes. (With `x` the
/// flag register itself, the flag overwrites the sum.)
pub proof fn lemma_add_with_carry(s: MachineView, x: int, y: int)
    requires
        s.wf(),
        0 <= x < 16,
        0 <= y < 16,
        x != FLAG_REGISTER,
    ensures
        ({
            let sum = s.registers[x] + s.registers[y];
            let t = s.after_add(x, y);
            &&& t.registers[x] == sum % 256
            &&& t.registers[FLAG_REGISTER as int] == (if sum > 255 { 1int } else { 0int })
            &&& forall|i: int|
                0 <= i < 16 && i != x && i != FLAG_REGISTER ==> t.registers[i] == s.registers[i]
            &&& t.memory == s.memory
            &&& t.calls == s.calls
            &&& t.pc == s.pc
        }),
{
}

/// A call to any address followed at once by a return gives back the state
/// from before the call, its program counter included.
pub proof fn lemma_call_then_return(s: MachineView, addr: int)
    requires
        s.wf(),
        s.calls.len() < STACK_DEPTH,
        0 <= addr < 4096,
    ensures
        s.after_call(addr).1 == Ok::<(), Fault>(()),
        s.after_call(addr).0.after_return() == (s, Ok::<(), Fault>(())),
{
    let t = s.after_call(addr).0;
    assert(t.calls.drop_last() =~= s.calls);
}

/// Executing a call instruction and then a return instruction at its target
/// leaves the program counter at the instruction after the call, with the
/// stack and everything else as they were.
pub proof fn lemma_call_then_return_steps(s: MachineView)
    requires
        s.wf(),
        s.can_fetch(),
        group_of(s.word()) == 2,
        s.calls.len() < STACK_DEPTH,
        s.step().0.can_fetch(),
        s.step().0.word() == 0x00EE,
    ensures
        s.step().1 == Ok::<Progress, Fault>(Progress::Running),
        s.step().0.step() == (s.advanced(), Ok::<Progress, Fault>(Progress::Running)),
{
    let a = s.advanced();
    let addr = instruction_of(s.word())->Call_0 as int;
    lemma_call_then_return(a, addr);
    let t = s.step().0;
    assert(group_of(0x00EE) == 0 && x_of(0x00EE) == 0 && y_of(0x00EE) == 0xE && sub_of(0x00EE)
        == 0xE);
    assert(t.step() == continuing(t.advanced().after_return()));
}

/// From an empty stack, up to sixteen nested calls all succeed and leave as
/// many calls outstanding; a seventeenth is refused as a stack overflow.
pub proof fn lemma_call_depth(s: MachineView, addrs: Seq<int>)
    requires
        s.wf(),
        s.calls.len() == 0,
        addrs.len() <= STACK_DEPTH + 1,
    ensures
        addrs.len() <= STACK_DEPTH ==> call_chain(s, addrs).1 == Ok::<(), Fault>(())
            && call_chain(s, addrs).0.calls.len() == addrs.len(),
        addrs.len() == STACK_DEPTH + 1 ==> call_chain(s, addrs).1 == Err::<(), Fault>(
            Fault::StackOverflow,
        ),
    decreases addrs.len(),
{
    if addrs.len() > 0 {
        lemma_call_depth(s, addrs.drop_last());
    }
}

/// A return with no call outstanding is refused as a stack underflow and
/// changes nothing; as an instruction, only the program counter has moved.
pub proof fn lemma_return_on_empty_stack(s: MachineView)
    requires
        s.wf(),
        s.calls.len() == 0,
    ensures
        s.after_return() == (s, Err::<(), Fault>(Fault::StackUnderflow)),
        s.can_fetch() && s.word() == 0x00EE ==> s.step() == (
            s.advanced(),
            Err::<Progress, Fault>(Fault::StackUnderflow),
        ),
{
    assert(group_of(0x00EE) == 0 && x_of(0x00EE) == 0 && y_of(0x00EE) == 0xE && sub_of(0x00EE)
        == 0xE);
}

/// A run that ends within some fuel ends the same way with more.
pub proof fn lemma_run_within_more_fuel(s: MachineView, n: nat, m: nat)
    requires
        n <= m,
        s.run_within(n) is Some,
    ensures
        s.run_within(m) == s.run_within(n),
    decreases n,
{
    if n > 0 && s.step().1 == Ok::<Progress, Fault>(Progress::Running) {
        lemma_run_within_more_fuel(s.step().0, (n - 1) as nat, (m - 1) as nat);
    }
}

/// A run from a given state has exactly one outcome.
pub proof fn lemma_run_deterministic(
    s: MachineView,
    t1: MachineView,
    r1: Result<(), Fault>,
    t2: MachineView,
    r2: Result<(), Fault>,
)
    requires
        s.runs_to(t1, r1),
        s.runs_to(t2, r2),
    ensures
        t1 == t2,
        r1 == r2,
{
    let n1 = choose|n: nat| s.run_within(n) == Some((t1, r1));
    let n2 = choose|n: nat| s.run_within(n) == Some((t2, r2));
    if n1 <= n2 {
        lemma_run_within_more_fuel(s, n1, n2);
    } else {
        lemma_run_within_more_fuel(s, n2, n1);
    }
}

/// The halt word ends the run at once: the state is the one from before the
/// fetch with only the program counter advanced, and the result is `Ok`.
pub proof fn lemma_halt_ends_run(s: MachineView, last: MachineView, r: Result<(), Fault>)
    requires
        s.wf(),
        s.can_fetch(),
        s.word() == 0,
        s.runs_to(last, r),
    ensures
        s.step() == (s.advanced(), Ok::<Progress, Fault>(Progress::Halted)),
        last == s.advanced(),
        r == Ok::<(), Fault>(()),
{
    assert(group_of(0) == 0 && x_of(0) == 0 && y_of(0) == 0 && sub_of(0) == 0);
    assert(s.run_within(1) == Some((s.advanced(), Ok::<(), Fault>(()))));
    lemma_run_deterministic(s, last, r, s.advanced(), Ok(()));
}

/// A word that matches none of the four recognized patterns is refused as an
/// unimplemented instruction that carries the word; only the program counter
/// has moved.
pub proof fn lemma_unrecognized_word(s: MachineView)
    requires
        s.wf(),
        s.can_fetch(),
        ({
            let w = s.word();
            let (c, x, y, d) = (group_of(w), x_of(w), y_of(w), sub_of(w));
            &&& !(c == 0 && x == 0 && y == 0 && d == 0)
            &&& !(c == 0 && x == 0 && y == 0xE && d == 0xE)
            &&& c != 2
            &&& !(c == 8 && d == 4)
        }),
    ensures
        instruction_of(s.word()) == Instruction::Unknown(s.word()),
        s.step() == (
            s.advanced(),
            Err::<Progress, Fault>(Fault::UnimplementedInstruction(s.word())),
        ),
{
}

} // verus!
