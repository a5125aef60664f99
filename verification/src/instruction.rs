//! The pseudo-instructions that code generation produces, and the arithmetic
//! of their widths and jump offsets.
//!
//! A pseudo-instruction occupies one line of the final text, except for the
//! three arithmetic blocks, which occupy a fixed number of lines each. A jump
//! holds an offset in lines, counted from the line of the jump itself.
use vstd::prelude::*;

verus! {

/// The eight registers of the target machine.
#[derive(Debug, PartialEq, Eq, Clone, Copy, Structural)]
pub enum Register {
    A,
    B,
    C,
    D,
    E,
    F,
    G,
    H,
}

/// A pseudo-instruction. Jumps are relative: the offset is added to the line
/// on which the jump itself ends up.
#[derive(Debug, PartialEq, Eq, Clone, Copy, Structural)]
pub enum Instruction {
    Read,
    Write,
    Load(Register),
    Store(Register),
    Add(Register),
    Sub(Register),
    Get(Register),
    Put(Register),
    Rst(Register),
    Inc(Register),
    Dec(Register),
    Shl(Register),
    Shr(Register),
    Jump(i64),
    Jpos(i64),
    Jzero(i64),
    Halt,
    Mul,
    Div,
    Mod,
}

/// Lines taken by the multiplication block.
pub const MUL_WIDTH: u64 = 18;

/// Lines taken by the division block.
pub const DIV_WIDTH: u64 = 23;

/// Lines taken by the remainder block.
pub const MOD_WIDTH: u64 = 24;

impl Instruction {
    /// The number of text lines that this pseudo-instruction expands to.
    pub open spec fn width(self) -> nat {
        match self {
            Instruction::Mul => MUL_WIDTH as nat,
            Instruction::Div => DIV_WIDTH as nat,
            Instruction::Mod => MOD_WIDTH as nat,
            _ => 1,
        }
    }

    /// The offset of a jump, `None` for every other instruction.
    pub open spec fn offset(self) -> Option<int> {
        match self {
            Instruction::Jump(o) => Some(o as int),
            Instruction::Jpos(o) => Some(o as int),
            Instruction::Jzero(o) => Some(o as int),
            _ => None,
        }
    }

    /// Whether this is one of the three arithmetic blocks.
    pub open spec fn is_block(self) -> bool {
        self == Instruction::Mul || self == Instruction::Div || self == Instruction::Mod
    }

    /// The number of text lines that this pseudo-instruction expands to.
    pub fn len(&self) -> (n: u64)
        ensures
            n == self.width(),
    {
        match self {
            Instruction::Mul => MUL_WIDTH,
            Instruction::Div => DIV_WIDTH,
            Instruction::Mod => MOD_WIDTH,
            _ => 1,
        }
    }
}

/// The number of text lines that a run of pseudo-instructions expands to.
pub open spec fn width(code: Seq<Instruction>) -> nat
    decreases code.len(),
{
    if code.len() == 0 {
        0
    } else {
        width(code.drop_last()) + code.last().width()
    }
}

/// The text line, counted from the start of `code`, on which instruction `i`
/// begins.
pub open spec fn line_of(code: Seq<Instruction>, i: int) -> nat {
    width(code.take(i))
}

/// Every jump in `code` lands at most `before` lines ahead of the first line
/// of `code` and at most `after` lines behind its last line.
pub open spec fn bounded(code: Seq<Instruction>, before: int, after: int) -> bool {
    forall|i: int|
        0 <= i < code.len() ==> match (#[trigger] code[i]).offset() {
            Some(o) => -before <= line_of(code, i) + o <= width(code) + after,
            None => true,
        }
}

/// Every jump in `code` lands on a line of `code` or just behind its last line.
pub open spec fn closed(code: Seq<Instruction>) -> bool {
    bounded(code, 0, 0)
}

/// No instruction of `code` is a jump.
pub open spec fn jump_free(code: Seq<Instruction>) -> bool {
    forall|i: int| 0 <= i < code.len() ==> (#[trigger] code[i]).offset() is None
}

/// Every instruction of `code` takes a single line.
pub open spec fn block_free(code: Seq<Instruction>) -> bool {
    forall|i: int| 0 <= i < code.len() ==> !(#[trigger] code[i]).is_block()
}

/// One more instruction adds its width.
pub proof fn lemma_width_push(code: Seq<Instruction>, last: Instruction)
    ensures
        width(code.push(last)) == width(code) + last.width(),
{
    assert(code.push(last).drop_last() =~= code);
}

/// The width of a concatenation is the sum of the widths.
pub proof fn lemma_width_concat(a: Seq<Instruction>, b: Seq<Instruction>)
    ensures
        width(a + b) == width(a) + width(b),
    decreases b.len(),
{
    if b.len() == 0 {
        assert(a + b =~= a);
    } else {
        lemma_width_concat(a, b.drop_last());
        assert((a + b).drop_last() =~= a + b.drop_last());
    }
}

/// Every instruction takes at least one line and at most 24.
pub proof fn lemma_width_bounds(code: Seq<Instruction>)
    ensures
        code.len() <= width(code) <= MOD_WIDTH * code.len(),
    decreases code.len(),
{
    if code.len() > 0 {
        lemma_width_bounds(code.drop_last());
    }
}

/// Code without arithmetic blocks takes one line for every instruction.
pub proof fn lemma_width_block_free(code: Seq<Instruction>)
    requires
        block_free(code),
    ensures
        width(code) == code.len(),
    decreases code.len(),
{
    if code.len() > 0 {
        assert(!code.last().is_block());
        lemma_width_block_free(code.drop_last());
    }
}

/// The widths of the two parts of a run of code add up to its width.
pub proof fn lemma_width_take(code: Seq<Instruction>, i: int)
    requires
        0 <= i <= code.len(),
    ensures
        width(code.take(i)) + width(code.skip(i)) == width(code),
{
    lemma_width_concat(code.take(i), code.skip(i));
    assert(code.take(i) + code.skip(i) =~= code);
}

/// Where an instruction of a concatenation begins, in terms of its parts.
pub proof fn lemma_line_of_concat(a: Seq<Instruction>, b: Seq<Instruction>, i: int)
    requires
        0 <= i <= a.len() + b.len(),
    ensures
        i <= a.len() ==> line_of(a + b, i) == line_of(a, i),
        i >= a.len() ==> line_of(a + b, i) == width(a) + line_of(b, i - a.len()),
{
    if i <= a.len() {
        assert((a + b).take(i) =~= a.take(i));
    }
    if i >= a.len() {
        assert((a + b).take(i) =~= a + b.take(i - a.len()));
        lemma_width_concat(a, b.take(i - a.len()));
        assert(a.take(a.len() as int) =~= a);
    }
}

/// Bounds on the jumps of two runs of code give bounds on their concatenation.
pub proof fn lemma_bounded_concat(
    a: Seq<Instruction>,
    b: Seq<Instruction>,
    before: int,
    after: int,
)
    requires
        bounded(a, before, after + width(b)),
        bounded(b, before + width(a), after),
    ensures
        bounded(a + b, before, after),
{
    let c = a + b;
    lemma_width_concat(a, b);
    assert forall|i: int| 0 <= i < c.len() implies match (#[trigger] c[i]).offset() {
        Some(o) => -before <= line_of(c, i) + o <= width(c) + after,
        None => true,
    } by {
        lemma_line_of_concat(a, b, i);
        if i < a.len() {
            assert(c[i] == a[i]);
        } else {
            assert(c[i] == b[i - a.len()]);
        }
    }
}

/// Looser bounds follow from tighter ones.
pub proof fn lemma_bounded_weaken(
    code: Seq<Instruction>,
    before: int,
    after: int,
    wider_before: int,
    wider_after: int,
)
    requires
        bounded(code, before, after),
        before <= wider_before,
        after <= wider_after,
    ensures
        bounded(code, wider_before, wider_after),
{
    assert forall|i: int| 0 <= i < code.len() implies match (#[trigger] code[i]).offset() {
        Some(o) => -wider_before <= line_of(code, i) + o <= width(code) + wider_after,
        None => true,
    } by {
        assert(code[i].offset() is Some ==> -before <= line_of(code, i) + code[i].offset()->0
            <= width(code) + after);
    }
}

/// Code without jumps meets every bound.
pub proof fn lemma_jump_free_bounded(code: Seq<Instruction>, before: int, after: int)
    requires
        jump_free(code),
    ensures
        bounded(code, before, after),
{
}

/// Two runs of code without jumps make one without jumps.
pub proof fn lemma_jump_free_concat(a: Seq<Instruction>, b: Seq<Instruction>)
    requires
        jump_free(a),
        jump_free(b),
    ensures
        jump_free(a + b),
{
    let c = a + b;
    assert forall|i: int| 0 <= i < c.len() implies (#[trigger] c[i]).offset() is None by {
        if i < a.len() {
            assert((a + b)[i] == a[i]);
        } else {
            assert((a + b)[i] == b[i - a.len()]);
        }
    }
}

/// Two runs of code without arithmetic blocks make one without them.
pub proof fn lemma_block_free_concat(a: Seq<Instruction>, b: Seq<Instruction>)
    requires
        block_free(a),
        block_free(b),
    ensures
        block_free(a + b),
{
    assert forall|i: int| 0 <= i < (a + b).len() implies !(#[trigger] (a + b)[i]).is_block() by {
        if i < a.len() {
            assert((a + b)[i] == a[i]);
        } else {
            assert((a + b)[i] == b[i - a.len()]);
        }
    }
}

/// Sums the widths of the instructions of `code`.
pub fn total_width(code: &Vec<Instruction>) -> (total: u64)
    requires
        width(code@) <= u64::MAX,
    ensures
        total == width(code@),
{
    let mut total: u64 = 0;
    let mut i: usize = 0;
    while i < code.len()
        invariant
            i <= code.len(),
            total == width(code@.take(i as int)),
            width(code@) <= u64::MAX,
        decreases code.len() - i,
    {
        proof {
            assert(code@.take(i + 1).drop_last() =~= code@.take(i as int));
            lemma_width_take(code@, i + 1);
        }
        total = total + code[i].len();
        i += 1;
    }
    proof {
        assert(code@.take(code.len() as int) =~= code@);
    }
    total
}

/// In code without arithmetic blocks an instruction stands on the line of its
/// index, so bounds on its jumps can be read off the indices.
pub proof fn lemma_bounded_plain(code: Seq<Instruction>, before: int, after: int)
    requires
        block_free(code),
        forall|i: int|
            0 <= i < code.len() ==> match (#[trigger] code[i]).offset() {
                Some(o) => -before <= i + o <= code.len() + after,
                None => true,
            },
    ensures
        bounded(code, before, after),
        width(code) == code.len(),
{
    lemma_width_block_free(code);
    assert forall|i: int| 0 <= i < code.len() implies match (#[trigger] code[i]).offset() {
        Some(o) => -before <= line_of(code, i) + o <= width(code) + after,
        None => true,
    } by {
        let head = code.take(i);
        assert forall|j: int| 0 <= j < head.len() implies !(#[trigger] head[j]).is_block() by {
            assert(head[j] == code[j]);
        }
        lemma_width_block_free(head);
    }
}

/// Moves the instructions of `more` behind those of `code`.
pub fn join(code: &mut Vec<Instruction>, more: Vec<Instruction>)
    ensures
        final(code)@ == old(code)@ + more@,
{
    let mut more = more;
    code.append(&mut more);
}

} // verus!
