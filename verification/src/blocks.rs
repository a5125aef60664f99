//! The layout of the three control constructs, and the proof that their
//! jumps stay inside.
use crate::ast::ConditionModel;
use crate::condition::{
    backward_branches, branch_count, forward_branches, lemma_backward_branches,
    lemma_forward_branches,
};
use crate::instruction::{
    block_free, closed, jump_free, lemma_bounded_concat, lemma_bounded_plain, lemma_bounded_weaken,
    lemma_jump_free_bounded, lemma_width_block_free, lemma_width_concat, width, Instruction,
};
use vstd::prelude::*;

verus! {

/// The lines that the commands for the other case take, with the jump in
/// front of them.
pub open spec fn else_width(else_code: Option<Seq<Instruction>>) -> nat {
    match else_code {
        Some(code) => 1 + width(code),
        None => 0,
    }
}

/// The code of a conditional: the test, then the commands for the case that
/// the condition holds. Where there are commands for the other case, a jump
/// over them follows, and then they. Where the condition does not hold,
/// control goes to the first line behind that jump, or, without commands for
/// the other case, to the first line behind the conditional.
pub open spec fn if_code(
    operands: Seq<Instruction>,
    condition: ConditionModel,
    then_code: Seq<Instruction>,
    else_code: Option<Seq<Instruction>>,
) -> Seq<Instruction> {
    match else_code {
        Some(code) => operands + forward_branches(condition, width(then_code) + 1) + then_code
            + seq![Instruction::Jump((width(code) + 1) as i64)] + code,
        None => operands + forward_branches(condition, width(then_code)) + then_code,
    }
}

/// The code of a loop that tests its condition first: the test, the body,
/// and a jump back to the first line of the test. Where the condition does
/// not hold, control goes to the first line behind that jump.
pub open spec fn while_code(
    operands: Seq<Instruction>,
    condition: ConditionModel,
    body_code: Seq<Instruction>,
) -> Seq<Instruction> {
    operands + forward_branches(condition, width(body_code) + 1) + body_code + seq![
        Instruction::Jump((-(operands.len() + branch_count(condition) + width(body_code))) as i64),
    ]
}

/// The code of a loop that runs until its condition holds: the body, then
/// the test. Where the condition does not hold, control goes back to the
/// first line of the body.
pub open spec fn repeat_code(
    body_code: Seq<Instruction>,
    operands: Seq<Instruction>,
    condition: ConditionModel,
) -> Seq<Instruction> {
    body_code + operands + backward_branches(condition, width(body_code) + operands.len())
}

/// The lines that a conditional takes.
pub open spec fn if_width(
    operands: Seq<Instruction>,
    condition: ConditionModel,
    then_code: Seq<Instruction>,
    else_code: Option<Seq<Instruction>>,
) -> nat {
    operands.len() + branch_count(condition) + width(then_code) + else_width(else_code)
}

/// The lines that the test and the body of a loop take.
pub open spec fn loop_width(
    operands: Seq<Instruction>,
    condition: ConditionModel,
    body_code: Seq<Instruction>,
) -> nat {
    operands.len() + branch_count(condition) + width(body_code)
}

proof fn lemma_branch_widths(condition: ConditionModel, skip: nat)
    ensures
        width(forward_branches(condition, skip)) == branch_count(condition),
        width(backward_branches(condition, skip)) == branch_count(condition),
{
    let forward = forward_branches(condition, skip);
    let backward = backward_branches(condition, skip);
    assert(block_free(forward));
    assert(block_free(backward));
    lemma_width_block_free(forward);
    lemma_width_block_free(backward);
}

proof fn lemma_single(instruction: Instruction)
    ensures
        width(seq![instruction]) == instruction.width(),
{
    let single = seq![instruction];
    assert(single.drop_last() =~= Seq::<Instruction>::empty());
    assert(single.last() == instruction);
    assert(width(single.drop_last()) == 0);
}

/// The lines that a conditional takes.
pub proof fn lemma_if_width(
    operands: Seq<Instruction>,
    condition: ConditionModel,
    then_code: Seq<Instruction>,
    else_code: Option<Seq<Instruction>>,
)
    requires
        block_free(operands),
    ensures
        width(if_code(operands, condition, then_code, else_code)) == if_width(
            operands,
            condition,
            then_code,
            else_code,
        ),
{
    lemma_width_block_free(operands);
    match else_code {
        Some(code) => {
            let branches = forward_branches(condition, width(then_code) + 1);
            let jump = seq![Instruction::Jump((width(code) + 1) as i64)];
            lemma_branch_widths(condition, width(then_code) + 1);
            lemma_single(jump[0]);
            lemma_width_concat(operands, branches);
            lemma_width_concat(operands + branches, then_code);
            lemma_width_concat(operands + branches + then_code, jump);
            lemma_width_concat(operands + branches + then_code + jump, code);
        },
        None => {
            let branches = forward_branches(condition, width(then_code));
            lemma_branch_widths(condition, width(then_code));
            lemma_width_concat(operands, branches);
            lemma_width_concat(operands + branches, then_code);
        },
    }
}

/// No jump of a conditional leaves it.
pub proof fn lemma_if_closed(
    operands: Seq<Instruction>,
    condition: ConditionModel,
    then_code: Seq<Instruction>,
    else_code: Option<Seq<Instruction>>,
)
    requires
        block_free(operands),
        jump_free(operands),
        closed(then_code),
        else_code is Some ==> closed(else_code->0),
        if_width(operands, condition, then_code, else_code) <= i64::MAX,
    ensures
        closed(if_code(operands, condition, then_code, else_code)),
{
    lemma_width_block_free(operands);
    let then_width = width(then_code) as int;
    match else_code {
        Some(code) => {
            let branches = forward_branches(condition, width(then_code) + 1);
            let jump = seq![Instruction::Jump((width(code) + 1) as i64)];
            let rest = width(code) as int;
            lemma_forward_branches(condition, width(then_code) + 1);
            lemma_single(jump[0]);
            let c1 = operands + branches;
            let c2 = c1 + then_code;
            let c3 = c2 + jump;
            lemma_width_concat(operands, branches);
            lemma_width_concat(c1, then_code);
            lemma_width_concat(c2, jump);
            lemma_jump_free_bounded(operands, 0, then_width + 1 + width(branches));
            lemma_bounded_weaken(
                branches,
                0,
                then_width + 1,
                width(operands) as int,
                then_width + 1,
            );
            lemma_bounded_concat(operands, branches, 0, then_width + 1);
            lemma_bounded_weaken(then_code, 0, 0, width(c1) as int, 1);
            lemma_bounded_concat(c1, then_code, 0, 1);
            lemma_bounded_weaken(c2, 0, 1, 0, rest + 1);
            lemma_bounded_plain(jump, width(c2) as int, rest);
            lemma_bounded_concat(c2, jump, 0, rest);
            lemma_bounded_weaken(code, 0, 0, width(c3) as int, 0);
            lemma_bounded_concat(c3, code, 0, 0);
        },
        None => {
            let branches = forward_branches(condition, width(then_code));
            lemma_forward_branches(condition, width(then_code));
            let c1 = operands + branches;
            lemma_width_concat(operands, branches);
            lemma_jump_free_bounded(operands, 0, then_width + width(branches));
            lemma_bounded_weaken(branches, 0, then_width, width(operands) as int, then_width);
            lemma_bounded_concat(operands, branches, 0, then_width);
            lemma_bounded_weaken(then_code, 0, 0, width(c1) as int, 0);
            lemma_bounded_concat(c1, then_code, 0, 0);
        },
    }
}

/// The lines that a loop with the test in front takes.
pub proof fn lemma_while_width(
    operands: Seq<Instruction>,
    condition: ConditionModel,
    body_code: Seq<Instruction>,
)
    requires
        block_free(operands),
    ensures
        width(while_code(operands, condition, body_code)) == loop_width(
            operands,
            condition,
            body_code,
        ) + 1,
{
    lemma_width_block_free(operands);
    let branches = forward_branches(condition, width(body_code) + 1);
    let jump = seq![
        Instruction::Jump((-(operands.len() + branch_count(condition) + width(body_code))) as i64),
    ];
    lemma_branch_widths(condition, width(body_code) + 1);
    lemma_single(jump[0]);
    lemma_width_concat(operands, branches);
    lemma_width_concat(operands + branches, body_code);
    lemma_width_concat(operands + branches + body_code, jump);
}

/// No jump of a loop with the test in front leaves it.
pub proof fn lemma_while_closed(
    operands: Seq<Instruction>,
    condition: ConditionModel,
    body_code: Seq<Instruction>,
)
    requires
        block_free(operands),
        jump_free(operands),
        closed(body_code),
        loop_width(operands, condition, body_code) + 1 <= i64::MAX,
    ensures
        closed(while_code(operands, condition, body_code)),
{
    lemma_width_block_free(operands);
    let body_width = width(body_code) as int;
    let branches = forward_branches(condition, width(body_code) + 1);
    let jump = seq![
        Instruction::Jump((-(operands.len() + branch_count(condition) + width(body_code))) as i64),
    ];
    lemma_forward_branches(condition, width(body_code) + 1);
    lemma_single(jump[0]);
    let c1 = operands + branches;
    let c2 = c1 + body_code;
    lemma_width_concat(operands, branches);
    lemma_width_concat(c1, body_code);
    lemma_jump_free_bounded(operands, 0, body_width + 1 + width(branches));
    lemma_bounded_weaken(branches, 0, body_width + 1, width(operands) as int, body_width + 1);
    lemma_bounded_concat(operands, branches, 0, body_width + 1);
    lemma_bounded_weaken(body_code, 0, 0, width(c1) as int, 1);
    lemma_bounded_concat(c1, body_code, 0, 1);
    lemma_bounded_plain(jump, width(c2) as int, 0);
    lemma_bounded_concat(c2, jump, 0, 0);
}

/// The lines that a loop with the test behind takes.
pub proof fn lemma_repeat_width(
    body_code: Seq<Instruction>,
    operands: Seq<Instruction>,
    condition: ConditionModel,
)
    requires
        block_free(operands),
    ensures
        width(repeat_code(body_code, operands, condition)) == loop_width(
            operands,
            condition,
            body_code,
        ),
{
    lemma_width_block_free(operands);
    let branches = backward_branches(condition, width(body_code) + operands.len());
    lemma_branch_widths(condition, width(body_code) + operands.len());
    lemma_width_concat(body_code, operands);
    lemma_width_concat(body_code + operands, branches);
}

/// No jump of a loop with the test behind leaves it.
pub proof fn lemma_repeat_closed(
    body_code: Seq<Instruction>,
    operands: Seq<Instruction>,
    condition: ConditionModel,
)
    requires
        block_free(operands),
        jump_free(operands),
        closed(body_code),
        loop_width(operands, condition, body_code) <= i64::MAX,
    ensures
        closed(repeat_code(body_code, operands, condition)),
{
    lemma_width_block_free(operands);
    let back = width(body_code) + operands.len();
    let branches = backward_branches(condition, back);
    lemma_backward_branches(condition, back);
    let c1 = body_code + operands;
    lemma_width_concat(body_code, operands);
    lemma_bounded_weaken(body_code, 0, 0, 0, (width(operands) + width(branches)) as int);
    lemma_jump_free_bounded(operands, width(body_code) as int, width(branches) as int);
    lemma_bounded_concat(body_code, operands, 0, width(branches) as int);
    lemma_bounded_concat(c1, branches, 0, 0);
}

/// Two runs of code that no jump leaves make one such run.
pub proof fn lemma_closed_concat(a: Seq<Instruction>, b: Seq<Instruction>)
    requires
        closed(a),
        closed(b),
    ensures
        closed(a + b),
        width(a + b) == width(a) + width(b),
{
    lemma_width_concat(a, b);
    lemma_bounded_weaken(a, 0, 0, 0, width(b) as int);
    lemma_bounded_weaken(b, 0, 0, width(a) as int, 0);
    lemma_bounded_concat(a, b, 0, 0);
}

} // verus!
