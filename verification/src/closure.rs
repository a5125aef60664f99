//! No jump leaves the code of a command: the proof, by induction over the
//! commands and the expansions of procedures.
use crate::ast::CommandModel;
use crate::blocks::{
    lemma_closed_concat, lemma_if_closed, lemma_if_width, lemma_repeat_closed, lemma_repeat_width,
    lemma_while_closed, lemma_while_width,
};
use crate::condition::{lemma_operands_code_plain, operands_code};
use crate::context::ContextModel;
use crate::instruction::{
    closed, jump_free, lemma_bounded_plain, lemma_jump_free_bounded, lemma_jump_free_concat,
    lemma_width_bounds, width, Instruction, Register,
};
use crate::outcome::{
    call_entry, command_outcome, commands_outcome, idle, lemma_idle_update, Entry, CODE_LIMIT,
};
use crate::rename::BuilderModel;
use crate::value::{
    expression_code, lemma_expression_code_plain, lemma_pointer_code_plain, lemma_value_code_plain,
    pointer_code, value_code,
};
use vstd::prelude::*;

verus! {

/// Code without jumps that is not absurdly long can be handed out.
proof fn lemma_plain_closed(code: Seq<Instruction>)
    requires
        jump_free(code),
        code.len() <= 0x1_0000,
    ensures
        closed(code),
        width(code) <= CODE_LIMIT,
{
    lemma_jump_free_bounded(code, 0, 0);
    lemma_width_bounds(code);
}

/// No jump leaves the code of a command, and the code fits under the limit.
#[verifier::rlimit(40)]
pub proof fn lemma_command_closed(
    procedures: Seq<BuilderModel>,
    active: Seq<bool>,
    state: ContextModel,
    command: CommandModel,
)
    ensures
        command_outcome(procedures, active, state, command).result matches Ok(code) ==> closed(
            code,
        ) && width(code) <= CODE_LIMIT,
    decreases idle(active), command, 0nat,
{
    let outcome = command_outcome(procedures, active, state, command);
    if outcome.result is Ok {
        match command {
            CommandModel::Assign(id, expression) => {
                let target = pointer_code(state.memory, id)->Ok_0;
                let value = expression_code(state.memory, expression)->Ok_0;
                let put = seq![Instruction::Put(Register::G)];
                let store = seq![Instruction::Store(Register::G)];
                lemma_pointer_code_plain(state.memory, id);
                lemma_expression_code_plain(state.memory, expression);
                lemma_jump_free_concat(target, put);
                lemma_jump_free_concat(target + put, value);
                lemma_jump_free_concat(target + put + value, store);
                lemma_plain_closed(target + put + value + store);
            },
            CommandModel::Read(id) => {
                let target = pointer_code(state.memory, id)->Ok_0;
                let tail = seq![
                    Instruction::Put(Register::G),
                    Instruction::Read,
                    Instruction::Store(Register::G),
                ];
                lemma_pointer_code_plain(state.memory, id);
                lemma_jump_free_concat(target, tail);
                lemma_plain_closed(target + tail);
            },
            CommandModel::Write(value) => {
                let loaded = value_code(state.memory, value)->Ok_0;
                lemma_value_code_plain(state.memory, value);
                lemma_jump_free_concat(loaded, seq![Instruction::Write]);
                lemma_plain_closed(loaded + seq![Instruction::Write]);
                assert(loaded.push(Instruction::Write) =~= loaded + seq![Instruction::Write]);
            },
            CommandModel::If(condition, commands, otherwise) => {
                let then = commands_outcome(procedures, active, state, commands, commands.len());
                lemma_commands_closed(procedures, active, state, commands, commands.len());
                let then_code = then.result->Ok_0;
                let other_state = match otherwise {
                    Some(list) => {
                        lemma_commands_closed(procedures, active, then.state, list, list.len());
                        commands_outcome(procedures, active, then.state, list, list.len()).state
                    },
                    None => then.state,
                };
                let else_code = match otherwise {
                    Some(list) => Some(
                        commands_outcome(
                            procedures,
                            active,
                            then.state,
                            list,
                            list.len(),
                        ).result->Ok_0,
                    ),
                    None => None,
                };
                let operands = operands_code(other_state.memory, condition)->Ok_0;
                lemma_operands_code_plain(other_state.memory, condition);
                lemma_if_width(operands, condition, then_code, else_code);
                lemma_if_closed(operands, condition, then_code, else_code);
            },
            CommandModel::While(condition, commands) => {
                let body = commands_outcome(procedures, active, state, commands, commands.len());
                lemma_commands_closed(procedures, active, state, commands, commands.len());
                let body_code = body.result->Ok_0;
                let operands = operands_code(body.state.memory, condition)->Ok_0;
                lemma_operands_code_plain(body.state.memory, condition);
                lemma_while_width(operands, condition, body_code);
                lemma_while_closed(operands, condition, body_code);
            },
            CommandModel::Repeat(commands, condition) => {
                let body = commands_outcome(procedures, active, state, commands, commands.len());
                lemma_commands_closed(procedures, active, state, commands, commands.len());
                let body_code = body.result->Ok_0;
                let operands = operands_code(body.state.memory, condition)->Ok_0;
                lemma_operands_code_plain(body.state.memory, condition);
                lemma_repeat_width(body_code, operands, condition);
                lemma_repeat_closed(body_code, operands, condition);
            },
            CommandModel::ProcCall(callee, arguments) => {
                match call_entry(procedures, active, state, callee, arguments) {
                    Entry::Refused(_) => {},
                    Entry::Entered(k, bound) => {
                        lemma_idle_update(active, k);
                        lemma_commands_closed(
                            procedures,
                            active.update(k, true),
                            bound,
                            procedures[k].commands,
                            procedures[k].commands.len(),
                        );
                    },
                }
            },
        }
    }
}

/// No jump leaves the code of a list of commands, and the code fits under
/// the limit.
pub proof fn lemma_commands_closed(
    procedures: Seq<BuilderModel>,
    active: Seq<bool>,
    state: ContextModel,
    commands: Seq<CommandModel>,
    count: nat,
)
    ensures
        commands_outcome(procedures, active, state, commands, count).result matches Ok(code)
            ==> closed(code) && width(code) <= CODE_LIMIT,
    decreases idle(active), commands, count,
{
    if count == 0 || count > commands.len() {
        lemma_bounded_plain(Seq::<Instruction>::empty(), 0, 0);
    } else {
        let before = commands_outcome(procedures, active, state, commands, (count - 1) as nat);
        lemma_commands_closed(procedures, active, state, commands, (count - 1) as nat);
        if before.result is Ok {
            lemma_command_closed(procedures, active, before.state, commands[count - 1]);
            let next = command_outcome(procedures, active, before.state, commands[count - 1]);
            if next.result is Ok {
                lemma_closed_concat(before.result->Ok_0, next.result->Ok_0);
            }
        }
    }
}

} // verus!
