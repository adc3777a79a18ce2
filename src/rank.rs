//! Why every run ends. Read the saved return addresses followed by the
//! program counter as the digits of one number, an absent digit counting as
//! the largest; every step that does not end the run makes that number grow,
//! and it is bounded.
use vstd::prelude::*;

use crate::instruction::{instruction_of, Instruction};
use crate::state::{MachineView, Progress, MEMORY_SIZE, STACK_DEPTH};

verus! {

/// Positions of the number: one per stack slot and one for the program counter.
pub open spec fn digits() -> nat {
    17
}

/// The value of an absent digit, above every address a digit can hold.
pub open spec fn absent() -> int {
    4097
}

/// The base of the number.
pub open spec fn radix() -> int {
    4098
}

/// The return addresses, oldest first, then the program counter.
pub open spec fn frames(s: MachineView) -> Seq<int> {
    Seq::new(
        s.calls.len() + 1,
        |i: int|
            if i < s.calls.len() {
                s.calls[i] as int
            } else {
                s.pc
            },
    )
}

/// Every frame holds an address between 0 and the end of memory.
pub open spec fn frames_in_range(f: Seq<int>) -> bool {
    forall|j: int| 0 <= j < f.len() ==> 0 <= #[trigger] f[j] <= MEMORY_SIZE
}

/// The digit at position `i`.
pub open spec fn digit(f: Seq<int>, i: int) -> int {
    if 0 <= i < f.len() {
        f[i]
    } else {
        absent()
    }
}

/// the radix to the power `n`.
pub open spec fn place(n: nat) -> int
    decreases n,
{
    if n == 0 {
        1
    } else {
        radix() * place((n - 1) as nat)
    }
}

/// The value of the digits from position `i` on.
pub open spec fn value_from(f: Seq<int>, i: nat) -> int
    decreases digits() - i,
{
    if i >= digits() {
        0
    } else {
        digit(f, i as int) * place((digits() - 1 - i) as nat) + value_from(f, i + 1)
    }
}

/// The rank of a state.
pub open spec fn rank(s: MachineView) -> int {
    value_from(frames(s), 0)
}

/// A bound on every rank.
pub open spec fn rank_limit() -> int {
    place(digits())
}

proof fn lemma_place_positive(n: nat)
    ensures
        place(n) >= 1,
    decreases n,
{
    if n > 0 {
        lemma_place_positive((n - 1) as nat);
    }
}

proof fn lemma_value_bounds(f: Seq<int>, i: nat)
    requires
        i <= digits(),
        frames_in_range(f),
    ensures
        0 <= value_from(f, i) < place((digits() - i) as nat),
    decreases digits() - i,
{
    if i < digits() {
        lemma_value_bounds(f, i + 1);
        let d = digit(f, i as int);
        let p = place((digits() - 1 - i) as nat);
        lemma_place_positive((digits() - 1 - i) as nat);
        assert(0 <= d <= absent());
        assert(0 <= d * p && d * p + p <= radix() * p) by (nonlinear_arith)
            requires
                0 <= d <= absent(),
                p >= 1,
        ;
        assert(place((digits() - i) as nat) == radix() * p);
        assert(value_from(f, i) == d * p + value_from(f, i + 1));
    }
}

/// Sequences that agree on the digits before `k` and differ first at `k`
/// are ordered as their digits at `k` are.
proof fn lemma_value_lex(f: Seq<int>, g: Seq<int>, k: nat, i: nat)
    requires
        i <= k < digits(),
        frames_in_range(f),
        frames_in_range(g),
        forall|j: int| i <= j < k ==> digit(f, j) == digit(g, j),
        digit(f, k as int) < digit(g, k as int),
    ensures
        value_from(f, i) < value_from(g, i),
    decreases k - i,
{
    let p = place((digits() - 1 - i) as nat);
    lemma_place_positive((digits() - 1 - i) as nat);
    if i == k {
        lemma_value_bounds(f, i + 1);
        lemma_value_bounds(g, i + 1);
        let df = digit(f, i as int);
        let dg = digit(g, i as int);
        assert(df * p + p <= dg * p) by (nonlinear_arith)
            requires
                df + 1 <= dg,
                p >= 1,
        ;
        assert(0 <= df * p) by (nonlinear_arith)
            requires
                0 <= df,
                p >= 1,
        ;
        assert(value_from(f, i) == df * p + value_from(f, i + 1));
        assert(value_from(g, i) == dg * p + value_from(g, i + 1));
    } else {
        lemma_value_lex(f, g, k, i + 1);
        assert(digit(f, i as int) == digit(g, i as int));
        assert(value_from(f, i) == digit(f, i as int) * p + value_from(f, i + 1));
        assert(value_from(g, i) == digit(g, i as int) * p + value_from(g, i + 1));
    }
}

/// Every rank of a well-formed state lies between 0 and the limit.
pub proof fn lemma_rank_bounded(s: MachineView)
    requires
        s.wf(),
    ensures
        0 <= rank(s) < rank_limit(),
{
    lemma_value_bounds(frames(s), 0);
}

/// A step that does not end the run raises the rank.
pub proof fn lemma_step_raises_rank(s: MachineView)
    requires
        s.wf(),
        s.step().1 == Ok::<Progress, crate::state::Fault>(Progress::Running),
    ensures
        rank(s) < rank(s.step().0),
{
    let t = s.step().0;
    let k = s.calls.len();
    let f = frames(s);
    let g = frames(t);
    let a = s.advanced();
    match instruction_of(s.word()) {
        Instruction::Return => {
            assert(t == a.after_return().0);
            assert(forall|j: int| 0 <= j < k ==> digit(f, j) == digit(g, j));
            lemma_value_lex(f, g, k, 0);
        },
        Instruction::Call(addr) => {
            assert(k < STACK_DEPTH);
            assert(t == a.after_call(addr as int).0);
            assert(forall|j: int| 0 <= j < k ==> digit(f, j) == digit(g, j));
            lemma_value_lex(f, g, k, 0);
        },
        Instruction::AddXY(x, y) => {
            assert(t == a.after_add(x as int, y as int));
            assert(forall|j: int| 0 <= j < k ==> digit(f, j) == digit(g, j));
            lemma_value_lex(f, g, k, 0);
        },
        _ => {},
    }
}

} // verus!
