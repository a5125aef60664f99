//! A program without multiplication, division and remainder compiles to code
//! without arithmetic blocks: the proof, by induction over the commands and
//! the expansions of procedures.
use crate::assembler::AssemblerModel;
use crate::ast::{CommandModel, ExpressionModel, ProgramModel};
use crate::blocks::while_code;
use crate::condition::{
    backward_branches, forward_branches, lemma_backward_branches_plain,
    lemma_forward_branches_plain, lemma_operands_code_plain, operands_code,
};
use crate::context::ContextModel;
use crate::instruction::{block_free, lemma_block_free_concat, width, Instruction, Register};
use crate::memory::MemoryModel;
use crate::outcome::{call_entry, command_outcome, commands_outcome, idle, lemma_idle_update, Entry};
use crate::recursion::lemma_found_procedure;
use crate::rename::{renamed_command, renamed_commands, BuilderModel};
use crate::value::{
    expression_code, first_operand, lemma_pointer_code_plain, lemma_value_code_plain, operation,
    pointer_code, second_operand, value_code,
};
use vstd::prelude::*;

verus! {

/// Whether an expression is neither a multiplication nor a division nor a
/// remainder.
pub open spec fn is_simple(expression: ExpressionModel) -> bool {
    expression is Val || expression is Add || expression is Substract
}

/// Whether no expression in the text of `command` is a multiplication, a
/// division or a remainder.
pub open spec fn command_is_simple(command: CommandModel) -> bool
    decreases command, 0nat,
{
    match command {
        CommandModel::Assign(_, expression) => is_simple(expression),
        CommandModel::If(_, commands, otherwise) => commands_are_simple(commands, commands.len())
            && match otherwise {
            Some(list) => commands_are_simple(list, list.len()),
            None => true,
        },
        CommandModel::While(_, commands) => commands_are_simple(commands, commands.len()),
        CommandModel::Repeat(commands, _) => commands_are_simple(commands, commands.len()),
        _ => true,
    }
}

/// Whether the first `count` commands are simple.
pub open spec fn commands_are_simple(commands: Seq<CommandModel>, count: nat) -> bool
    decreases commands, count,
{
    if count == 0 || count > commands.len() {
        true
    } else {
        commands_are_simple(commands, (count - 1) as nat) && command_is_simple(commands[count - 1])
    }
}

/// Whether the body of every procedure is simple.
pub open spec fn procedures_are_simple(procedures: Seq<BuilderModel>) -> bool {
    forall|k: int|
        0 <= k < procedures.len() ==> commands_are_simple(
            (#[trigger] procedures[k]).commands,
            procedures[k].commands.len(),
        )
}

/// The code of a simple expression has no arithmetic block.
pub proof fn lemma_simple_expression(
    memory: MemoryModel,
    expression: ExpressionModel,
)
    requires
        is_simple(expression),
        expression_code(memory, expression) is Ok,
    ensures
        block_free(expression_code(memory, expression)->Ok_0),
{
    let first = first_operand(expression);
    lemma_value_code_plain(memory, first);
    match second_operand(expression) {
        None => {},
        Some(second) => {
            lemma_value_code_plain(memory, second);
            let a = value_code(memory, first)->Ok_0;
            let b = seq![Instruction::Put(Register::B)];
            let c = value_code(memory, second)->Ok_0;
            let d = operation(expression);
            lemma_block_free_concat(a, b);
            lemma_block_free_concat(a + b, c);
            lemma_block_free_concat(a + b + c, d);
        },
    }
}

/// A simple command compiles to code without arithmetic blocks, if the
/// procedures are simple.
#[verifier::rlimit(40)]
pub proof fn lemma_simple_command(
    procedures: Seq<BuilderModel>,
    active: Seq<bool>,
    state: ContextModel,
    command: CommandModel,
)
    requires
        procedures_are_simple(procedures),
        command_is_simple(command),
    ensures
        command_outcome(procedures, active, state, command).result matches Ok(code)
            ==> block_free(code),
    decreases idle(active), command, 0nat,
{
    let outcome = command_outcome(procedures, active, state, command);
    if outcome.result is Ok {
        match command {
            CommandModel::Assign(id, expression) => {
                let target = pointer_code(state.memory, id)->Ok_0;
                let value = expression_code(state.memory, expression)->Ok_0;
                let put = seq![Instruction::Put(Register::G)];
                let store = seq![Instruction::Store(Register::G)];
                lemma_pointer_code_plain(state.memory, id);
                lemma_simple_expression(state.memory, expression);
                lemma_block_free_concat(target, put);
                lemma_block_free_concat(target + put, value);
                lemma_block_free_concat(target + put + value, store);
            },
            CommandModel::Read(id) => {
                let target = pointer_code(state.memory, id)->Ok_0;
                let tail = seq![
                    Instruction::Put(Register::G),
                    Instruction::Read,
                    Instruction::Store(Register::G),
                ];
                lemma_pointer_code_plain(state.memory, id);
                lemma_block_free_concat(target, tail);
            },
            CommandModel::Write(value) => {
                let loaded = value_code(state.memory, value)->Ok_0;
                lemma_value_code_plain(state.memory, value);
                lemma_block_free_concat(loaded, seq![Instruction::Write]);
                assert(loaded.push(Instruction::Write) =~= loaded + seq![Instruction::Write]);
            },
            CommandModel::If(condition, commands, otherwise) => {
                let then = commands_outcome(procedures, active, state, commands, commands.len());
                lemma_simple_commands(procedures, active, state, commands, commands.len());
                let then_code = then.result->Ok_0;
                match otherwise {
                    Some(list) => {
                        lemma_simple_commands(procedures, active, then.state, list, list.len());
                        let other = commands_outcome(
                            procedures,
                            active,
                            then.state,
                            list,
                            list.len(),
                        );
                        let else_code = other.result->Ok_0;
                        let operands = operands_code(other.state.memory, condition)->Ok_0;
                        let branches = forward_branches(condition, width(then_code) + 1);
                        let jump = seq![Instruction::Jump((width(else_code) + 1) as i64)];
                        lemma_operands_code_plain(other.state.memory, condition);
                        lemma_forward_branches_plain(condition, width(then_code) + 1);
                        lemma_block_free_concat(operands, branches);
                        lemma_block_free_concat(operands + branches, then_code);
                        lemma_block_free_concat(operands + branches + then_code, jump);
                        lemma_block_free_concat(operands + branches + then_code + jump, else_code);
                    },
                    None => {
                        let operands = operands_code(then.state.memory, condition)->Ok_0;
                        let branches = forward_branches(condition, width(then_code));
                        lemma_operands_code_plain(then.state.memory, condition);
                        lemma_forward_branches_plain(condition, width(then_code));
                        lemma_block_free_concat(operands, branches);
                        lemma_block_free_concat(operands + branches, then_code);
                    },
                }
            },
            CommandModel::While(condition, commands) => {
                let body = commands_outcome(procedures, active, state, commands, commands.len());
                lemma_simple_commands(procedures, active, state, commands, commands.len());
                let body_code = body.result->Ok_0;
                let operands = operands_code(body.state.memory, condition)->Ok_0;
                let branches = forward_branches(condition, width(body_code) + 1);
                let code = while_code(operands, condition, body_code);
                let jump = seq![code.last()];
                lemma_operands_code_plain(body.state.memory, condition);
                lemma_forward_branches_plain(condition, width(body_code) + 1);
                lemma_block_free_concat(operands, branches);
                lemma_block_free_concat(operands + branches, body_code);
                lemma_block_free_concat(operands + branches + body_code, jump);
                assert(code =~= operands + branches + body_code + jump);
            },
            CommandModel::Repeat(commands, condition) => {
                let body = commands_outcome(procedures, active, state, commands, commands.len());
                lemma_simple_commands(procedures, active, state, commands, commands.len());
                let body_code = body.result->Ok_0;
                let operands = operands_code(body.state.memory, condition)->Ok_0;
                let branches = backward_branches(condition, width(body_code) + operands.len());
                lemma_operands_code_plain(body.state.memory, condition);
                lemma_backward_branches_plain(condition, width(body_code) + operands.len());
                lemma_block_free_concat(body_code, operands);
                lemma_block_free_concat(body_code + operands, branches);
            },
            CommandModel::ProcCall(callee, arguments) => {
                match call_entry(procedures, active, state, callee, arguments) {
                    Entry::Refused(_) => {},
                    Entry::Entered(k, bound) => {
                        lemma_idle_update(active, k);
                        lemma_found_procedure(procedures, callee.0, 0);
                        lemma_simple_commands(
                            procedures,
                            active.update(k, true),
                            bound,
                            procedures[k].commands,
                            procedures[k].commands.len(),
                        );
                    },
                }
            },
        }
    }
}

/// Simple commands compile to code without arithmetic blocks, if the
/// procedures are simple.
pub proof fn lemma_simple_commands(
    procedures: Seq<BuilderModel>,
    active: Seq<bool>,
    state: ContextModel,
    commands: Seq<CommandModel>,
    count: nat,
)
    requires
        procedures_are_simple(procedures),
        commands_are_simple(commands, count),
    ensures
        commands_outcome(procedures, active, state, commands, count).result matches Ok(code)
            ==> block_free(code),
    decreases idle(active), commands, count,
{
    if count == 0 || count > commands.len() {
    } else {
        let before = commands_outcome(procedures, active, state, commands, (count - 1) as nat);
        lemma_simple_commands(procedures, active, state, commands, (count - 1) as nat);
        if before.result is Ok {
            lemma_simple_command(procedures, active, before.state, commands[count - 1]);
            let next = command_outcome(procedures, active, before.state, commands[count - 1]);
            if next.result is Ok {
                lemma_block_free_concat(before.result->Ok_0, next.result->Ok_0);
            }
        }
    }
}

/// Qualifying the variables of a command changes no operation: the renamed
/// command is simple exactly if the command was.
pub proof fn lemma_renaming_keeps_simple(command: CommandModel, owner: Seq<char>)
    ensures
        command_is_simple(renamed_command(command, owner)) == command_is_simple(command),
    decreases command, 0nat,
{
    match command {
        CommandModel::If(_, commands, otherwise) => {
            lemma_renaming_keeps_simple_list(commands, owner, commands.len());
            match otherwise {
                Some(list) => {
                    lemma_renaming_keeps_simple_list(list, owner, list.len());
                },
                None => {},
            }
        },
        CommandModel::While(_, commands) => {
            lemma_renaming_keeps_simple_list(commands, owner, commands.len());
        },
        CommandModel::Repeat(commands, _) => {
            lemma_renaming_keeps_simple_list(commands, owner, commands.len());
        },
        _ => {},
    }
}

/// Qualifying the variables of a list of commands changes no operation.
pub proof fn lemma_renaming_keeps_simple_list(
    commands: Seq<CommandModel>,
    owner: Seq<char>,
    count: nat,
)
    requires
        count <= commands.len(),
    ensures
        commands_are_simple(renamed_commands(commands, owner), count) == commands_are_simple(
            commands,
            count,
        ),
    decreases commands, count,
{
    if count > 0 {
        lemma_renaming_keeps_simple_list(commands, owner, (count - 1) as nat);
        lemma_renaming_keeps_simple(commands[count - 1], owner);
    }
}

/// Whether no expression in the text of the program is a multiplication, a
/// division or a remainder.
pub open spec fn program_is_simple(program: ProgramModel) -> bool {
    &&& commands_are_simple(program.commands, program.commands.len())
    &&& match program.procedures {
        Some(list) => forall|k: int|
            0 <= k < list.len() ==> commands_are_simple(
                (#[trigger] list[k]).commands,
                list[k].commands.len(),
            ),
        None => true,
    }
}

/// The procedures of a simple program are simple when they are prepared for
/// inlining.
pub proof fn lemma_simple_program_prepared(program: ProgramModel)
    requires
        program_is_simple(program),
    ensures
        procedures_are_simple(AssemblerModel::initial(program).procedures),
        commands_are_simple(
            AssemblerModel::initial(program).commands,
            AssemblerModel::initial(program).commands.len(),
        ),
{
    let procedures = AssemblerModel::initial(program).procedures;
    assert forall|k: int| 0 <= k < procedures.len() implies commands_are_simple(
        (#[trigger] procedures[k]).commands,
        procedures[k].commands.len(),
    ) by {
        let source = program.procedures->0[k];
        lemma_renaming_keeps_simple_list(source.commands, source.name.0, source.commands.len());
    }
}

} // verus!
