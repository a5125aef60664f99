//! Loading a constant into the accumulator by doubling and incrementing.
use crate::instruction::{
    block_free, jump_free, lemma_width_block_free, width, Instruction, Register,
};
use vstd::prelude::*;

verus! {

/// The steps that bring the accumulator from 1 to `n`: one doubling for each
/// binary digit after the first, with an increment behind it where the digit
/// is 1.
pub open spec fn doubling(n: nat) -> Seq<Instruction>
    decreases n,
{
    if n <= 1 {
        Seq::empty()
    } else if n % 2 == 1 {
        doubling((n - 1) as nat).push(Instruction::Inc(Register::A))
    } else {
        doubling(n / 2).push(Instruction::Shl(Register::A))
    }
}

/// The code that leaves `n` in the accumulator, whatever it held before.
pub open spec fn number_code(n: nat) -> Seq<Instruction> {
    if n == 0 {
        seq![Instruction::Rst(Register::A)]
    } else {
        seq![Instruction::Rst(Register::A), Instruction::Inc(Register::A)] + doubling(n)
    }
}

/// What one instruction does to the accumulator, as far as the instructions
/// of `number_code` go: clearing, incrementing and doubling. Every other
/// instruction is taken to leave it alone.
pub open spec fn step_accumulator(a: nat, i: Instruction) -> nat {
    match i {
        Instruction::Rst(Register::A) => 0,
        Instruction::Inc(Register::A) => a + 1,
        Instruction::Shl(Register::A) => 2 * a,
        _ => a,
    }
}

/// The accumulator after running `code` from the value `a`.
pub open spec fn run_accumulator(a: nat, code: Seq<Instruction>) -> nat
    decreases code.len(),
{
    if code.len() == 0 {
        a
    } else {
        step_accumulator(run_accumulator(a, code.drop_last()), code.last())
    }
}

/// Two to the power `k`.
pub open spec fn pow2(k: nat) -> nat
    decreases k,
{
    if k == 0 {
        1
    } else {
        2 * pow2((k - 1) as nat)
    }
}

/// Only the accumulator is cleared, incremented or doubled.
pub open spec fn accumulator_only(code: Seq<Instruction>) -> bool {
    forall|i: int|
        0 <= i < code.len() ==> {
            ||| #[trigger] code[i] == Instruction::Rst(Register::A)
            ||| code[i] == Instruction::Inc(Register::A)
            ||| code[i] == Instruction::Shl(Register::A)
        }
}

/// Running a concatenation is running its parts one after the other.
pub proof fn lemma_run_concat(a: nat, x: Seq<Instruction>, y: Seq<Instruction>)
    ensures
        run_accumulator(a, x + y) == run_accumulator(run_accumulator(a, x), y),
    decreases y.len(),
{
    if y.len() == 0 {
        assert(x + y =~= x);
    } else {
        lemma_run_concat(a, x, y.drop_last());
        assert((x + y).drop_last() =~= x + y.drop_last());
    }
}

proof fn lemma_doubling_runs(n: nat)
    requires
        n >= 1,
    ensures
        run_accumulator(1, doubling(n)) == n,
        accumulator_only(doubling(n)),
    decreases n,
{
    if n <= 1 {
    } else if n % 2 == 1 {
        lemma_doubling_runs((n - 1) as nat);
        assert(doubling(n).drop_last() =~= doubling((n - 1) as nat));
    } else {
        lemma_doubling_runs(n / 2);
        assert(doubling(n).drop_last() =~= doubling(n / 2));
    }
}

proof fn lemma_doubling_length(n: nat, k: nat)
    requires
        1 <= n < pow2(k),
    ensures
        k >= 1,
        doubling(n).len() + 2 <= 2 * k,
    decreases n,
{
    if n <= 1 {
    } else if n % 2 == 1 {
        let half = ((n - 1) / 2) as nat;
        assert(doubling(n) == doubling((n - 1) as nat).push(Instruction::Inc(Register::A)));
        assert(doubling((n - 1) as nat) == doubling(half).push(Instruction::Shl(Register::A)));
        lemma_doubling_length(half, (k - 1) as nat);
    } else {
        lemma_doubling_length(n / 2, (k - 1) as nat);
    }
}

/// Run on any accumulator, `number_code(n)` leaves exactly `n` in it, and it
/// touches no other register.
pub proof fn lemma_number_code_loads(n: nat, before: nat)
    ensures
        run_accumulator(before, number_code(n)) == n,
        accumulator_only(number_code(n)),
{
    let head = seq![Instruction::Rst(Register::A)];
    assert(head.drop_last() =~= Seq::<Instruction>::empty());
    assert(run_accumulator(before, head) == 0) by {
        assert(run_accumulator(before, head.drop_last()) == before);
    }
    if n > 0 {
        let start = seq![Instruction::Rst(Register::A), Instruction::Inc(Register::A)];
        assert(start.drop_last() =~= head);
        assert(run_accumulator(before, start) == 1);
        lemma_doubling_runs(n);
        lemma_run_concat(before, start, doubling(n));
    }
}

/// `number_code(n)` has at most `2 * k + 1` instructions for every `k` with
/// `n + 1 <= 2^k`; the least such `k` is the logarithm of `n + 1` to base 2,
/// rounded up.
pub proof fn lemma_number_code_length(n: nat, k: nat)
    requires
        n + 1 <= pow2(k),
    ensures
        1 <= number_code(n).len() <= 2 * k + 1,
{
    if n > 0 {
        lemma_doubling_length(n, k);
    }
}

/// Only increments and doublings of the accumulator.
pub open spec fn steps_only(code: Seq<Instruction>) -> bool {
    forall|i: int|
        0 <= i < code.len() ==> {
            ||| #[trigger] code[i] == Instruction::Inc(Register::A)
            ||| code[i] == Instruction::Shl(Register::A)
        }
}

/// The number of increments and doublings in `number_code(n)`.
pub open spec fn step_count(n: nat) -> nat {
    if n == 0 {
        0
    } else {
        1 + doubling(n).len()
    }
}

/// One more costs at most one step more.
proof fn lemma_step_count_next(n: nat)
    requires
        n >= 1,
    ensures
        step_count(n) <= 1 + step_count((n - 1) as nat),
    decreases n,
{
    if n >= 2 && n % 2 == 0 {
        let half = n / 2;
        assert(doubling(n) == doubling(half).push(Instruction::Shl(Register::A)));
        if half >= 2 {
            let before = (n - 1) as nat;
            let even = (n - 2) as nat;
            assert(doubling(before) == doubling(even).push(Instruction::Inc(Register::A)));
            assert(even / 2 == half - 1);
            assert(doubling(even) == doubling((half - 1) as nat).push(
                Instruction::Shl(Register::A),
            ));
            lemma_step_count_next(half);
        }
    }
}

/// The steps of `number_code(n)` behind the clearing are the fewest that do
/// it: no run of increments and doublings brings the accumulator from 0 to
/// `n` in fewer steps.
pub proof fn lemma_number_code_minimal(code: Seq<Instruction>, n: nat)
    requires
        steps_only(code),
        run_accumulator(0, code) == n,
    ensures
        number_code(n).len() == 1 + step_count(n),
        step_count(n) <= code.len(),
    decreases code.len(),
{
    if code.len() > 0 {
        let front = code.drop_last();
        let reached = run_accumulator(0, front);
        assert forall|i: int| 0 <= i < front.len() implies {
            ||| #[trigger] front[i] == Instruction::Inc(Register::A)
            ||| front[i] == Instruction::Shl(Register::A)
        } by {
            assert(front[i] == code[i]);
        }
        lemma_number_code_minimal(front, reached);
        let last = code.last();
        assert(last == code[code.len() - 1]);
        if last == Instruction::Inc(Register::A) {
            lemma_step_count_next(n);
        } else if n > 0 {
            assert(n == 2 * reached);
            assert(doubling(n) == doubling(reached).push(Instruction::Shl(Register::A)));
        }
    }
}

/// The logarithm of `m` to base 2, rounded up: the least `k` with
/// `m <= 2^k`.
pub open spec fn ceil_log2(m: nat) -> nat
    decreases m,
{
    if m <= 1 {
        0
    } else {
        1 + ceil_log2((m + 1) / 2)
    }
}

/// `ceil_log2(m)` is the least exponent whose power of 2 reaches `m`.
pub proof fn lemma_ceil_log2(m: nat)
    ensures
        m <= pow2(ceil_log2(m)),
        forall|k: nat| k < ceil_log2(m) ==> pow2(k) < m,
    decreases m,
{
    if m > 1 {
        let half = (m + 1) / 2;
        lemma_ceil_log2(half);
        assert forall|k: nat| k < ceil_log2(m) implies pow2(k) < m by {
            if k > 0 {
                assert(pow2((k - 1) as nat) < half);
            }
        }
    }
}

/// `number_code(n)` has at most `2 * ceil_log2(n + 1) + 1` instructions.
pub proof fn lemma_number_code_bound(n: nat)
    ensures
        1 <= number_code(n).len() <= 2 * ceil_log2(n + 1) + 1,
{
    lemma_ceil_log2(n + 1);
    lemma_number_code_length(n, ceil_log2(n + 1));
}

/// The code of a constant holds neither a jump nor an arithmetic block.
pub proof fn lemma_number_code_plain(n: nat)
    ensures
        jump_free(number_code(n)),
        block_free(number_code(n)),
        width(number_code(n)) == number_code(n).len(),
{
    lemma_number_code_loads(n, 0);
    let code = number_code(n);
    assert forall|i: int| 0 <= i < code.len() implies (#[trigger] code[i]).offset() is None by {}
    assert forall|i: int| 0 <= i < code.len() implies !(#[trigger] code[i]).is_block() by {}
    lemma_width_block_free(code);
}

/// Two to the power 64.
pub proof fn lemma_pow2_64()
    ensures
        pow2(64) == 0x1_0000_0000_0000_0000,
{
    reveal_with_fuel(pow2, 65);
}

/// Two to the power 65.
pub proof fn lemma_pow2_65()
    ensures
        pow2(65) == 0x2_0000_0000_0000_0000,
{
    lemma_pow2_64();
}

/// The longest code that `number_code` gives for a 64-bit constant.
pub const NUMBER_CODE_MAX: usize = 129;

/// The code of a 64-bit constant has at most 129 instructions.
pub proof fn lemma_number_code_short(n: u64)
    ensures
        1 <= number_code(n as nat).len() <= NUMBER_CODE_MAX,
{
    lemma_pow2_64();
    lemma_number_code_length(n as nat, 64);
}

/// Puts `num` into register `A`.
pub fn get_number(num: u64) -> (code: Vec<Instruction>)
    ensures
        code@ == number_code(num as nat),
{
    let mut instructions: Vec<Instruction> = Vec::new();
    instructions.push(Instruction::Rst(Register::A));
    if num != 0 {
        instructions.push(Instruction::Inc(Register::A));
        let mut rest: u64 = num;
        let mut steps: Vec<Instruction> = Vec::new();
        while rest != 1
            invariant
                rest >= 1,
                doubling(num as nat) == doubling(rest as nat) + steps@.reverse(),
            decreases rest,
        {
            let ghost before = steps@;
            let ghost was = rest;
            if rest % 2 == 1 {
                steps.push(Instruction::Inc(Register::A));
                rest = rest - 1;
            } else {
                steps.push(Instruction::Shl(Register::A));
                rest = rest / 2;
            }
            proof {
                let step = steps@.last();
                assert(steps@.reverse() =~= seq![step] + before.reverse());
                assert(doubling(was as nat) == doubling(rest as nat).push(step));
                assert(doubling(rest as nat).push(step) + before.reverse() =~= doubling(
                    rest as nat,
                ) + (seq![step] + before.reverse()));
            }
        }
        let mut i: usize = steps.len();
        while i > 0
            invariant
                i <= steps.len(),
                instructions@ == seq![Instruction::Rst(Register::A), Instruction::Inc(Register::A)]
                    + steps@.reverse().take(steps.len() - i),
            decreases i,
        {
            i = i - 1;
            instructions.push(steps[i]);
            proof {
                let rev = steps@.reverse();
                let done = steps.len() - i;
                assert(rev.take(done) =~= rev.take(done - 1).push(steps@[i as int]));
            }
        }
        proof {
            assert(steps@.reverse().take(steps.len() as int) =~= steps@.reverse());
            assert(doubling(1) + steps@.reverse() =~= steps@.reverse());
        }
    }
    instructions
}

} // verus!
