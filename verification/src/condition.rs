//! Code for conditions. A condition is compiled in two parts: the code that
//! loads the operands and subtracts one from the other, and the branches that
//! act on the difference. Subtraction on the target machine stops at zero,
//! so a positive difference tells that the minuend is the greater.
use crate::ast::{Condition, ConditionModel, Value, ValueModel};
use crate::context::{Context, ContextModel};
use crate::error::{CompilerError, ErrorModel};
use crate::instruction::{
    block_free, bounded, join, jump_free, lemma_block_free_concat, lemma_bounded_plain,
    lemma_jump_free_concat, width, Instruction, Register,
};
use crate::memory::MemoryModel;
use crate::value::{lemma_value_code_plain, value_code, value_noted, yields};
use vstd::prelude::*;

verus! {

/// The operand that ends up in register `B`.
pub open spec fn loaded_first(condition: ConditionModel) -> ValueModel {
    match condition {
        ConditionModel::Equal(a, _) => a,
        ConditionModel::NotEqual(a, _) => a,
        ConditionModel::Greater(_, b) => b,
        ConditionModel::Lower(a, _) => a,
        ConditionModel::GreaterOrEqual(a, _) => a,
        ConditionModel::LowerOrEqual(_, b) => b,
    }
}

/// The operand that `B` is subtracted from.
pub open spec fn loaded_second(condition: ConditionModel) -> ValueModel {
    match condition {
        ConditionModel::Equal(_, b) => b,
        ConditionModel::NotEqual(_, b) => b,
        ConditionModel::Greater(a, _) => a,
        ConditionModel::Lower(_, b) => b,
        ConditionModel::GreaterOrEqual(_, b) => b,
        ConditionModel::LowerOrEqual(a, _) => a,
    }
}

/// Whether the condition needs both differences, and so keeps the second
/// operand in register `C`.
pub open spec fn tests_both(condition: ConditionModel) -> bool {
    condition is Equal || condition is NotEqual
}

/// The instructions that form the difference once both operands are loaded.
pub open spec fn difference(condition: ConditionModel) -> Seq<Instruction> {
    if tests_both(condition) {
        seq![Instruction::Put(Register::C), Instruction::Sub(Register::B)]
    } else {
        seq![Instruction::Sub(Register::B)]
    }
}

/// The code that loads the operands of `condition` and leaves the difference
/// of the second and the first in register `A`, or the error of the first
/// operand, in the order of loading, that is rejected.
pub open spec fn operands_code(memory: MemoryModel, condition: ConditionModel) -> Result<
    Seq<Instruction>,
    ErrorModel,
> {
    match value_code(memory, loaded_first(condition)) {
        Err(error) => Err(error),
        Ok(first) => match value_code(memory, loaded_second(condition)) {
            Err(error) => Err(error),
            Ok(second) => Ok(
                first + seq![Instruction::Put(Register::B)] + second + difference(condition),
            ),
        },
    }
}

/// The state after the operands are loaded; the second is loaded only if the
/// first was accepted.
pub open spec fn operands_noted(state: ContextModel, condition: ConditionModel) -> ContextModel {
    let loaded = value_noted(state, loaded_first(condition));
    if value_code(state.memory, loaded_first(condition)) is Err {
        loaded
    } else {
        value_noted(loaded, loaded_second(condition))
    }
}

/// The branches in front of a body of `skip` lines: where the condition
/// holds, control falls through into the body; where it does not, control
/// goes to the line behind the body.
pub open spec fn forward_branches(condition: ConditionModel, skip: nat) -> Seq<Instruction> {
    match condition {
        ConditionModel::Equal(_, _) => seq![
            Instruction::Jpos((skip + 4) as i64),
            Instruction::Get(Register::B),
            Instruction::Sub(Register::C),
            Instruction::Jpos((skip + 1) as i64),
        ],
        ConditionModel::NotEqual(_, _) => seq![
            Instruction::Jpos(5),
            Instruction::Get(Register::B),
            Instruction::Sub(Register::C),
            Instruction::Jpos(2),
            Instruction::Jump((skip + 1) as i64),
        ],
        ConditionModel::Greater(_, _) => seq![
            Instruction::Jpos(2),
            Instruction::Jump((skip + 1) as i64),
        ],
        ConditionModel::Lower(_, _) => seq![
            Instruction::Jpos(2),
            Instruction::Jump((skip + 1) as i64),
        ],
        ConditionModel::GreaterOrEqual(_, _) => seq![Instruction::Jpos((skip + 1) as i64)],
        ConditionModel::LowerOrEqual(_, _) => seq![Instruction::Jpos((skip + 1) as i64)],
    }
}

/// The branches behind the body of a loop that runs until the condition
/// holds, where `back` lines lie between the start of the body and the first
/// branch: where the condition holds, control falls through; where it does
/// not, control goes back to the start of the body.
pub open spec fn backward_branches(condition: ConditionModel, back: nat) -> Seq<Instruction> {
    match condition {
        ConditionModel::Equal(_, _) => seq![
            Instruction::Jpos((-back) as i64),
            Instruction::Get(Register::B),
            Instruction::Sub(Register::C),
            Instruction::Jpos((-(back + 3)) as i64),
        ],
        ConditionModel::NotEqual(_, _) => seq![
            Instruction::Jpos(5),
            Instruction::Get(Register::B),
            Instruction::Sub(Register::C),
            Instruction::Jpos(2),
            Instruction::Jump((-(back + 4)) as i64),
        ],
        ConditionModel::Greater(_, _) => seq![
            Instruction::Jpos(2),
            Instruction::Jump((-(back + 1)) as i64),
        ],
        ConditionModel::Lower(_, _) => seq![
            Instruction::Jpos(2),
            Instruction::Jump((-(back + 1)) as i64),
        ],
        ConditionModel::GreaterOrEqual(_, _) => seq![Instruction::Jpos((-back) as i64)],
        ConditionModel::LowerOrEqual(_, _) => seq![Instruction::Jpos((-back) as i64)],
    }
}

/// The number of branches that a condition takes.
pub open spec fn branch_count(condition: ConditionModel) -> nat {
    match condition {
        ConditionModel::Equal(_, _) => 4,
        ConditionModel::NotEqual(_, _) => 5,
        ConditionModel::Greater(_, _) => 2,
        ConditionModel::Lower(_, _) => 2,
        ConditionModel::GreaterOrEqual(_, _) => 1,
        ConditionModel::LowerOrEqual(_, _) => 1,
    }
}

/// The longest code that loads the operands of a condition.
pub const OPERANDS_CODE_MAX: usize = 527;

/// The code that loads the operands holds neither a jump nor an arithmetic
/// block, and is short.
pub proof fn lemma_operands_code_plain(memory: MemoryModel, condition: ConditionModel)
    requires
        operands_code(memory, condition) is Ok,
    ensures
        jump_free(operands_code(memory, condition)->Ok_0),
        block_free(operands_code(memory, condition)->Ok_0),
        operands_code(memory, condition)->Ok_0.len() <= OPERANDS_CODE_MAX,
{
    let first = loaded_first(condition);
    let second = loaded_second(condition);
    lemma_value_code_plain(memory, first);
    lemma_value_code_plain(memory, second);
    let a = value_code(memory, first)->Ok_0;
    let b = seq![Instruction::Put(Register::B)];
    let c = value_code(memory, second)->Ok_0;
    let d = difference(condition);
    lemma_jump_free_concat(a, b);
    lemma_jump_free_concat(a + b, c);
    lemma_jump_free_concat(a + b + c, d);
    lemma_block_free_concat(a, b);
    lemma_block_free_concat(a + b, c);
    lemma_block_free_concat(a + b + c, d);
}

/// The forward branches take one line each, and none of them leaves the
/// lines from the first branch to the line behind the body.
pub proof fn lemma_forward_branches(condition: ConditionModel, skip: nat)
    requires
        skip + branch_count(condition) <= i64::MAX,
    ensures
        forward_branches(condition, skip).len() == branch_count(condition),
        width(forward_branches(condition, skip)) == branch_count(condition),
        block_free(forward_branches(condition, skip)),
        bounded(forward_branches(condition, skip), 0, skip as int),
{
    lemma_bounded_plain(forward_branches(condition, skip), 0, skip as int);
}

/// The backward branches take one line each, and none of them leaves the
/// lines from the start of the body to the line behind the last branch.
pub proof fn lemma_backward_branches(condition: ConditionModel, back: nat)
    requires
        back + branch_count(condition) <= i64::MAX,
    ensures
        backward_branches(condition, back).len() == branch_count(condition),
        width(backward_branches(condition, back)) == branch_count(condition),
        block_free(backward_branches(condition, back)),
        bounded(backward_branches(condition, back), back as int, 0),
{
    lemma_bounded_plain(backward_branches(condition, back), back as int, 0);
}

/// The forward branches hold no arithmetic block, whatever the distance.
pub proof fn lemma_forward_branches_plain(condition: ConditionModel, skip: nat)
    ensures
        block_free(forward_branches(condition, skip)),
{
}

/// The backward branches hold no arithmetic block, whatever the distance.
pub proof fn lemma_backward_branches_plain(condition: ConditionModel, back: nat)
    ensures
        block_free(backward_branches(condition, back)),
{
}

/// The two operands of `condition`, in the order of loading, and whether the
/// condition needs both differences.
fn operands(condition: &Condition) -> (parts: (&Value, &Value, bool))
    ensures
        parts.0@ == loaded_first(condition@),
        parts.1@ == loaded_second(condition@),
        parts.2 == tests_both(condition@),
{
    match condition {
        Condition::Equal(value_0, value_1) => (value_0, value_1, true),
        Condition::NotEqual(value_0, value_1) => (value_0, value_1, true),
        Condition::Greater(value_0, value_1) => (value_1, value_0, false),
        Condition::Lower(value_0, value_1) => (value_0, value_1, false),
        Condition::GreaterOrEqual(value_0, value_1) => (value_0, value_1, false),
        Condition::LowerOrEqual(value_0, value_1) => (value_1, value_0, false),
    }
}

impl Context {
    /// Loads the operands of `condition` and leaves their difference in `A`.
    pub fn load_operands(&mut self, condition: &Condition) -> (code: Result<
        Vec<Instruction>,
        CompilerError,
    >)
        requires
            old(self)@.valid(),
        ensures
            final(self)@ == operands_noted(old(self)@, condition@),
            yields(code, operands_code(old(self)@.memory, condition@)),
    {
        let (first, second, both) = operands(condition);
        let mut cond_instructions = match self.extract_value(first) {
            Ok(code) => code,
            Err(error) => {
                return Err(error);
            },
        };
        cond_instructions.push(Instruction::Put(Register::B));
        match self.extract_value(second) {
            Ok(code) => {
                join(&mut cond_instructions, code);
            },
            Err(error) => {
                return Err(error);
            },
        }
        if both {
            cond_instructions.push(Instruction::Put(Register::C));
        }
        cond_instructions.push(Instruction::Sub(Register::B));
        proof {
            assert(cond_instructions@ =~= operands_code(old(self)@.memory, condition@)->Ok_0);
        }
        Ok(cond_instructions)
    }
}

/// The number of branches that `condition` takes.
pub fn count_branches(condition: &Condition) -> (count: u64)
    ensures
        count == branch_count(condition@),
{
    match condition {
        Condition::Equal(_, _) => 4,
        Condition::NotEqual(_, _) => 5,
        Condition::Greater(_, _) => 2,
        Condition::Lower(_, _) => 2,
        Condition::GreaterOrEqual(_, _) => 1,
        Condition::LowerOrEqual(_, _) => 1,
    }
}

/// The branches in front of a body of `skip` lines.
pub fn branch_forward(condition: &Condition, skip: i64) -> (code: Vec<Instruction>)
    requires
        0 <= skip,
        skip + branch_count(condition@) <= i64::MAX,
    ensures
        code@ == forward_branches(condition@, skip as nat),
{
    let mut code: Vec<Instruction> = Vec::new();
    match condition {
        Condition::Equal(_, _) => {
            code.push(Instruction::Jpos(skip + 4));
            code.push(Instruction::Get(Register::B));
            code.push(Instruction::Sub(Register::C));
            code.push(Instruction::Jpos(skip + 1));
        },
        Condition::NotEqual(_, _) => {
            code.push(Instruction::Jpos(5));
            code.push(Instruction::Get(Register::B));
            code.push(Instruction::Sub(Register::C));
            code.push(Instruction::Jpos(2));
            code.push(Instruction::Jump(skip + 1));
        },
        Condition::Greater(_, _) | Condition::Lower(_, _) => {
            code.push(Instruction::Jpos(2));
            code.push(Instruction::Jump(skip + 1));
        },
        Condition::GreaterOrEqual(_, _) | Condition::LowerOrEqual(_, _) => {
            code.push(Instruction::Jpos(skip + 1));
        },
    }
    proof {
        assert(code@ =~= forward_branches(condition@, skip as nat));
    }
    code
}

/// The branches behind the body of a loop that runs until `condition` holds,
/// where `back` lines lie between the start of the body and the first branch.
pub fn branch_backward(condition: &Condition, back: i64) -> (code: Vec<Instruction>)
    requires
        0 <= back,
        back + branch_count(condition@) <= i64::MAX,
    ensures
        code@ == backward_branches(condition@, back as nat),
{
    let mut code: Vec<Instruction> = Vec::new();
    match condition {
        Condition::Equal(_, _) => {
            code.push(Instruction::Jpos(-back));
            code.push(Instruction::Get(Register::B));
            code.push(Instruction::Sub(Register::C));
            code.push(Instruction::Jpos(-(back + 3)));
        },
        Condition::NotEqual(_, _) => {
            code.push(Instruction::Jpos(5));
            code.push(Instruction::Get(Register::B));
            code.push(Instruction::Sub(Register::C));
            code.push(Instruction::Jpos(2));
            code.push(Instruction::Jump(-(back + 4)));
        },
        Condition::Greater(_, _) | Condition::Lower(_, _) => {
            code.push(Instruction::Jpos(2));
            code.push(Instruction::Jump(-(back + 1)));
        },
        Condition::GreaterOrEqual(_, _) | Condition::LowerOrEqual(_, _) => {
            code.push(Instruction::Jpos(-back));
        },
    }
    proof {
        assert(code@ =~= backward_branches(condition@, back as nat));
    }
    code
}

} // verus!
