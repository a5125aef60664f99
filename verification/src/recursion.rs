//! The laws of the recursion guard: a call of a procedure whose body is
//! being expanded never compiles.
use crate::assembler::prepared_all;
use crate::ast::{CommandModel, NameModel, ProcedureModel};
use crate::context::ContextModel;
use crate::error::{ErrorModel, StopModel};
use crate::instruction::Instruction;
use crate::outcome::{
    call_entry, command_outcome, commands_outcome, expanding, find_procedure, idle, rejected, Entry,
};
use crate::rename::{renamed_command, renamed_commands, BuilderModel};
use vstd::prelude::*;

verus! {

/// Whether the text of `command` holds a call of the procedure `name`, at
/// any depth.
pub open spec fn calls(command: CommandModel, name: Seq<char>) -> bool
    decreases command, 0nat,
{
    match command {
        CommandModel::ProcCall(callee, _) => callee.0 == name,
        CommandModel::If(_, commands, otherwise) => any_calls(commands, name, commands.len())
            || match otherwise {
            Some(list) => any_calls(list, name, list.len()),
            None => false,
        },
        CommandModel::While(_, commands) => any_calls(commands, name, commands.len()),
        CommandModel::Repeat(commands, _) => any_calls(commands, name, commands.len()),
        _ => false,
    }
}

/// Whether the text of one of the first `count` commands holds a call of the
/// procedure `name`.
pub open spec fn any_calls(commands: Seq<CommandModel>, name: Seq<char>, count: nat) -> bool
    decreases commands, count,
{
    if count == 0 || count > commands.len() {
        false
    } else {
        any_calls(commands, name, (count - 1) as nat) || calls(commands[count - 1], name)
    }
}

/// The procedure that is found under a name has that name.
pub proof fn lemma_found_procedure(procedures: Seq<BuilderModel>, name: Seq<char>, from: nat)
    ensures
        find_procedure(procedures, name, from) matches Some(k) ==> from <= k < procedures.len()
            && procedures[k].name == name,
    decreases procedures.len() - from,
{
    if from < procedures.len() && procedures[from as int].name != name {
        lemma_found_procedure(procedures, name, from + 1);
    }
}

/// A call of a procedure that is under expansion is rejected as recursive,
/// if it has the right number of arguments.
pub proof fn lemma_call_under_expansion(
    procedures: Seq<BuilderModel>,
    active: Seq<bool>,
    state: ContextModel,
    callee: NameModel,
    arguments: Seq<NameModel>,
)
    requires
        find_procedure(procedures, callee.0, 0) matches Some(k) && expanding(active, k)
            && arguments.len() == procedures[k].formals.len(),
    ensures
        command_outcome(procedures, active, state, CommandModel::ProcCall(callee, arguments))
            == rejected(state, ErrorModel::RecursiveProcedureCall(callee.0, callee.1)),
{
}

/// A command that holds a call of a procedure under expansion does not
/// compile.
pub proof fn lemma_command_with_expanding_call(
    procedures: Seq<BuilderModel>,
    active: Seq<bool>,
    state: ContextModel,
    command: CommandModel,
    name: Seq<char>,
)
    requires
        find_procedure(procedures, name, 0) matches Some(k) && expanding(active, k),
        calls(command, name),
    ensures
        command_outcome(procedures, active, state, command).result is Err,
    decreases idle(active), command, 0nat,
{
    let target = find_procedure(procedures, name, 0)->0;
    match command {
        CommandModel::If(condition, commands, otherwise) => {
            let then = commands_outcome(procedures, active, state, commands, commands.len());
            if any_calls(commands, name, commands.len()) {
                lemma_commands_with_expanding_call(
                    procedures,
                    active,
                    state,
                    commands,
                    commands.len(),
                    name,
                );
            } else if then.result is Ok {
                let list = otherwise->0;
                lemma_commands_with_expanding_call(
                    procedures,
                    active,
                    then.state,
                    list,
                    list.len(),
                    name,
                );
            }
        },
        CommandModel::While(condition, commands) => {
            lemma_commands_with_expanding_call(
                procedures,
                active,
                state,
                commands,
                commands.len(),
                name,
            );
        },
        CommandModel::Repeat(commands, condition) => {
            lemma_commands_with_expanding_call(
                procedures,
                active,
                state,
                commands,
                commands.len(),
                name,
            );
        },
        CommandModel::ProcCall(callee, arguments) => {
            assert(call_entry(procedures, active, state, callee, arguments) is Refused);
        },
        _ => {},
    }
}

/// A list of commands that holds a call of a procedure under expansion does
/// not compile.
pub proof fn lemma_commands_with_expanding_call(
    procedures: Seq<BuilderModel>,
    active: Seq<bool>,
    state: ContextModel,
    commands: Seq<CommandModel>,
    count: nat,
    name: Seq<char>,
)
    requires
        find_procedure(procedures, name, 0) matches Some(k) && expanding(active, k),
        any_calls(commands, name, count),
    ensures
        commands_outcome(procedures, active, state, commands, count).result is Err,
    decreases idle(active), commands, count,
{
    let fewer = (count - 1) as nat;
    let before = commands_outcome(procedures, active, state, commands, fewer);
    if any_calls(commands, name, fewer) {
        lemma_commands_with_expanding_call(procedures, active, state, commands, fewer, name);
    } else if before.result is Ok {
        lemma_command_with_expanding_call(
            procedures,
            active,
            before.state,
            commands[count - 1],
            name,
        );
    }
}

/// A call of a procedure whose body holds a call of the procedure itself does
/// not compile: where the call is accepted as such, the body is expanded with
/// the procedure marked, and the call in the body is met or an error comes
/// before it.
pub proof fn lemma_recursive_procedure_rejected(
    procedures: Seq<BuilderModel>,
    active: Seq<bool>,
    state: ContextModel,
    callee: NameModel,
    arguments: Seq<NameModel>,
)
    requires
        find_procedure(procedures, callee.0, 0) matches Some(k) && any_calls(
            procedures[k].commands,
            callee.0,
            procedures[k].commands.len(),
        ),
    ensures
        command_outcome(
            procedures,
            active,
            state,
            CommandModel::ProcCall(callee, arguments),
        ).result is Err,
{
    match call_entry(procedures, active, state, callee, arguments) {
        Entry::Refused(outcome) => {},
        Entry::Entered(k, bound) => {
            lemma_commands_with_expanding_call(
                procedures,
                active.update(k, true),
                bound,
                procedures[k].commands,
                procedures[k].commands.len(),
                callee.0,
            );
        },
    }
}

/// Whether code generation for `command` gets as far as a call of the
/// procedure `name` with the right number of arguments: whatever is compiled
/// before that call is accepted and fits the machine.
pub open spec fn command_reaches_call(
    procedures: Seq<BuilderModel>,
    active: Seq<bool>,
    state: ContextModel,
    command: CommandModel,
    name: Seq<char>,
) -> bool
    decreases command, 0nat,
{
    match command {
        CommandModel::ProcCall(callee, arguments) => {
            &&& callee.0 == name
            &&& find_procedure(procedures, name, 0) matches Some(k)
            &&& arguments.len() == procedures[k].formals.len()
        },
        CommandModel::If(_, commands, otherwise) => if any_calls(
            commands,
            name,
            commands.len(),
        ) {
            commands_reach_call(procedures, active, state, commands, commands.len(), name)
        } else {
            let then = commands_outcome(procedures, active, state, commands, commands.len());
            match otherwise {
                Some(list) => then.result is Ok && commands_reach_call(
                    procedures,
                    active,
                    then.state,
                    list,
                    list.len(),
                    name,
                ),
                None => false,
            }
        },
        CommandModel::While(_, commands) => commands_reach_call(
            procedures,
            active,
            state,
            commands,
            commands.len(),
            name,
        ),
        CommandModel::Repeat(commands, _) => commands_reach_call(
            procedures,
            active,
            state,
            commands,
            commands.len(),
            name,
        ),
        _ => false,
    }
}

/// Whether code generation for the first `count` commands gets as far as a
/// call of the procedure `name` with the right number of arguments.
pub open spec fn commands_reach_call(
    procedures: Seq<BuilderModel>,
    active: Seq<bool>,
    state: ContextModel,
    commands: Seq<CommandModel>,
    count: nat,
    name: Seq<char>,
) -> bool
    decreases commands, count,
{
    if count == 0 || count > commands.len() {
        false
    } else if any_calls(commands, name, (count - 1) as nat) {
        commands_reach_call(procedures, active, state, commands, (count - 1) as nat, name)
    } else {
        let before = commands_outcome(procedures, active, state, commands, (count - 1) as nat);
        before.result is Ok && command_reaches_call(
            procedures,
            active,
            before.state,
            commands[count - 1],
            name,
        )
    }
}

/// Whether a result is the rejection of a recursive call of `name`.
pub open spec fn rejected_as_recursive(
    result: Result<Seq<Instruction>, StopModel>,
    name: Seq<char>,
) -> bool {
    result matches Err(StopModel::Fault(ErrorModel::RecursiveProcedureCall(callee, _))) && callee
        == name
}

/// A command whose compilation gets as far as a call of a procedure under
/// expansion is rejected with that call as recursive.
pub proof fn lemma_command_stops_at_call(
    procedures: Seq<BuilderModel>,
    active: Seq<bool>,
    state: ContextModel,
    command: CommandModel,
    name: Seq<char>,
)
    requires
        find_procedure(procedures, name, 0) matches Some(k) && expanding(active, k),
        command_reaches_call(procedures, active, state, command, name),
    ensures
        rejected_as_recursive(command_outcome(procedures, active, state, command).result, name),
    decreases command, 0nat,
{
    match command {
        CommandModel::If(condition, commands, otherwise) => {
            let then = commands_outcome(procedures, active, state, commands, commands.len());
            if any_calls(commands, name, commands.len()) {
                lemma_commands_stop_at_call(
                    procedures,
                    active,
                    state,
                    commands,
                    commands.len(),
                    name,
                );
            } else {
                let list = otherwise->0;
                lemma_commands_stop_at_call(
                    procedures,
                    active,
                    then.state,
                    list,
                    list.len(),
                    name,
                );
            }
        },
        CommandModel::While(condition, commands) => {
            lemma_commands_stop_at_call(
                procedures,
                active,
                state,
                commands,
                commands.len(),
                name,
            );
        },
        CommandModel::Repeat(commands, condition) => {
            lemma_commands_stop_at_call(
                procedures,
                active,
                state,
                commands,
                commands.len(),
                name,
            );
        },
        CommandModel::ProcCall(callee, arguments) => {
            lemma_call_under_expansion(procedures, active, state, callee, arguments);
        },
        _ => {},
    }
}

/// A list of commands whose compilation gets as far as a call of a procedure
/// under expansion is rejected with that call as recursive.
pub proof fn lemma_commands_stop_at_call(
    procedures: Seq<BuilderModel>,
    active: Seq<bool>,
    state: ContextModel,
    commands: Seq<CommandModel>,
    count: nat,
    name: Seq<char>,
)
    requires
        find_procedure(procedures, name, 0) matches Some(k) && expanding(active, k),
        commands_reach_call(procedures, active, state, commands, count, name),
    ensures
        rejected_as_recursive(
            commands_outcome(procedures, active, state, commands, count).result,
            name,
        ),
    decreases commands, count,
{
    let fewer = (count - 1) as nat;
    let before = commands_outcome(procedures, active, state, commands, fewer);
    if any_calls(commands, name, fewer) {
        lemma_commands_stop_at_call(procedures, active, state, commands, fewer, name);
    } else {
        lemma_command_stops_at_call(procedures, active, before.state, commands[count - 1], name);
    }
}

/// A call of a procedure whose body calls the procedure itself is rejected
/// as a recursive call, where the call is accepted as such and the
/// compilation of the body gets as far as the call in it.
pub proof fn lemma_recursive_call_rejected(
    procedures: Seq<BuilderModel>,
    active: Seq<bool>,
    state: ContextModel,
    callee: NameModel,
    arguments: Seq<NameModel>,
)
    requires
        call_entry(procedures, active, state, callee, arguments) matches Entry::Entered(k, bound)
            && commands_reach_call(
            procedures,
            active.update(k, true),
            bound,
            procedures[k].commands,
            procedures[k].commands.len(),
            callee.0,
        ),
    ensures
        rejected_as_recursive(
            command_outcome(
                procedures,
                active,
                state,
                CommandModel::ProcCall(callee, arguments),
            ).result,
            callee.0,
        ),
{
    let entry = call_entry(procedures, active, state, callee, arguments);
    let k = entry->Entered_0;
    lemma_commands_stop_at_call(
        procedures,
        active.update(k, true),
        entry->Entered_1,
        procedures[k].commands,
        procedures[k].commands.len(),
        callee.0,
    );
}

/// A call of a procedure whose body, as the user wrote it, holds a call of
/// the procedure itself does not compile.
pub proof fn lemma_recursive_source_procedure(
    source: Seq<ProcedureModel>,
    active: Seq<bool>,
    state: ContextModel,
    callee: NameModel,
    arguments: Seq<NameModel>,
)
    requires
        find_procedure(prepared_all(source), callee.0, 0) matches Some(k) && any_calls(
            source[k].commands,
            callee.0,
            source[k].commands.len(),
        ),
    ensures
        command_outcome(
            prepared_all(source),
            active,
            state,
            CommandModel::ProcCall(callee, arguments),
        ).result is Err,
{
    let k = find_procedure(prepared_all(source), callee.0, 0)->0;
    lemma_found_procedure(prepared_all(source), callee.0, 0);
    lemma_renaming_keeps_any_calls(
        source[k].commands,
        source[k].name.0,
        callee.0,
        source[k].commands.len(),
    );
    lemma_recursive_procedure_rejected(prepared_all(source), active, state, callee, arguments);
}

/// Qualifying the variables of a command changes no call: the renamed
/// command calls a procedure exactly if the command did.
pub proof fn lemma_renaming_keeps_calls(command: CommandModel, owner: Seq<char>, name: Seq<char>)
    ensures
        calls(renamed_command(command, owner), name) == calls(command, name),
    decreases command, 0nat,
{
    match command {
        CommandModel::If(_, commands, otherwise) => {
            lemma_renaming_keeps_any_calls(commands, owner, name, commands.len());
            match otherwise {
                Some(list) => {
                    lemma_renaming_keeps_any_calls(list, owner, name, list.len());
                },
                None => {},
            }
        },
        CommandModel::While(_, commands) => {
            lemma_renaming_keeps_any_calls(commands, owner, name, commands.len());
        },
        CommandModel::Repeat(commands, _) => {
            lemma_renaming_keeps_any_calls(commands, owner, name, commands.len());
        },
        _ => {},
    }
}

/// Qualifying the variables of a list of commands changes no call.
pub proof fn lemma_renaming_keeps_any_calls(
    commands: Seq<CommandModel>,
    owner: Seq<char>,
    name: Seq<char>,
    count: nat,
)
    requires
        count <= commands.len(),
    ensures
        any_calls(renamed_commands(commands, owner), name, count) == any_calls(
            commands,
            name,
            count,
        ),
    decreases commands, count,
{
    if count > 0 {
        lemma_renaming_keeps_any_calls(commands, owner, name, (count - 1) as nat);
        lemma_renaming_keeps_calls(commands[count - 1], owner, name);
    }
}

} // verus!
