//! The code does not depend on what is known of the variables: the names
//! that hold a value and the warnings only accompany code generation. The
//! proof, by induction over the commands and the expansions of procedures.
use crate::ast::{ArgumentModel, CommandModel, DeclarationModel, NameModel};
use crate::context::ContextModel;
use crate::outcome::{
    call_entry, command_outcome, commands_outcome, find_procedure, formals_bound, idle,
    lemma_idle_update, listed, Entry,
};
use crate::rename::BuilderModel;
use vstd::prelude::*;

verus! {

/// Whether two states have the same symbol table and the same cursor.
pub open spec fn same_layout(first: ContextModel, second: ContextModel) -> bool {
    first.memory == second.memory && first.cursor == second.cursor
}

/// Giving memory to declarations goes by the symbol table and the cursor
/// alone.
pub proof fn lemma_layout_independent(
    first: ContextModel,
    second: ContextModel,
    declarations: Seq<DeclarationModel>,
    owner: Option<Seq<char>>,
    count: nat,
)
    requires
        same_layout(first, second),
    ensures
        first.laid_out(declarations, owner, count) is Some == second.laid_out(
            declarations,
            owner,
            count,
        ) is Some,
        first.laid_out(declarations, owner, count) is Some ==> same_layout(
            first.laid_out(declarations, owner, count)->0,
            second.laid_out(declarations, owner, count)->0,
        ),
        same_layout(
            first.laid_out_at_most(declarations, owner, count),
            second.laid_out_at_most(declarations, owner, count),
        ),
    decreases count,
{
    if count > 0 && count <= declarations.len() {
        lemma_layout_independent(first, second, declarations, owner, (count - 1) as nat);
    }
}

/// Binding formal parameters goes by the symbol table alone.
pub proof fn lemma_formals_independent(
    first: ContextModel,
    second: ContextModel,
    formals: Seq<ArgumentModel>,
    locals: Seq<DeclarationModel>,
    owner: Seq<char>,
    arguments: Seq<NameModel>,
    count: nat,
)
    requires
        same_layout(first, second),
    ensures
        formals_bound(first, formals, locals, owner, arguments, count).1 == formals_bound(
            second,
            formals,
            locals,
            owner,
            arguments,
            count,
        ).1,
        same_layout(
            formals_bound(first, formals, locals, owner, arguments, count).0,
            formals_bound(second, formals, locals, owner, arguments, count).0,
        ),
    decreases count,
{
    if count > 0 && count <= formals.len() && count <= arguments.len() {
        lemma_formals_independent(
            first,
            second,
            formals,
            locals,
            owner,
            arguments,
            (count - 1) as nat,
        );
    }
}

/// The code of a command, or the reason why it has none, and the memory of
/// the variables behind it go by the symbol table and the cursor alone: what
/// is known of the variables changes neither.
#[verifier::rlimit(40)]
pub proof fn lemma_command_independent(
    procedures: Seq<BuilderModel>,
    active: Seq<bool>,
    first: ContextModel,
    second: ContextModel,
    command: CommandModel,
)
    requires
        same_layout(first, second),
    ensures
        command_outcome(procedures, active, first, command).result == command_outcome(
            procedures,
            active,
            second,
            command,
        ).result,
        same_layout(
            command_outcome(procedures, active, first, command).state,
            command_outcome(procedures, active, second, command).state,
        ),
    decreases idle(active), command, 0nat,
{
    match command {
        CommandModel::If(condition, commands, otherwise) => {
            lemma_commands_independent(
                procedures,
                active,
                first,
                second,
                commands,
                commands.len(),
            );
            let then_first = commands_outcome(procedures, active, first, commands, commands.len());
            let then_second = commands_outcome(
                procedures,
                active,
                second,
                commands,
                commands.len(),
            );
            if then_first.result is Ok {
                match otherwise {
                    Some(list) => {
                        lemma_commands_independent(
                            procedures,
                            active,
                            then_first.state,
                            then_second.state,
                            list,
                            list.len(),
                        );
                    },
                    None => {},
                }
            }
        },
        CommandModel::While(condition, commands) => {
            lemma_commands_independent(
                procedures,
                active,
                first,
                second,
                commands,
                commands.len(),
            );
        },
        CommandModel::Repeat(commands, condition) => {
            lemma_commands_independent(
                procedures,
                active,
                first,
                second,
                commands,
                commands.len(),
            );
        },
        CommandModel::ProcCall(callee, arguments) => {
            match call_entry(procedures, active, first, callee, arguments) {
                Entry::Refused(_) => {
                    lemma_entry_independent(procedures, active, first, second, callee, arguments);
                },
                Entry::Entered(k, bound) => {
                    lemma_entry_independent(procedures, active, first, second, callee, arguments);
                    lemma_idle_update(active, k);
                    lemma_commands_independent(
                        procedures,
                        active.update(k, true),
                        bound,
                        call_entry(procedures, active, second, callee, arguments)->Entered_1,
                        procedures[k].commands,
                        procedures[k].commands.len(),
                    );
                },
            }
        },
        _ => {},
    }
}

/// What a call does before the body goes by the symbol table and the cursor
/// alone.
pub proof fn lemma_entry_independent(
    procedures: Seq<BuilderModel>,
    active: Seq<bool>,
    first: ContextModel,
    second: ContextModel,
    callee: NameModel,
    arguments: Seq<NameModel>,
)
    requires
        same_layout(first, second),
    ensures
        match call_entry(procedures, active, first, callee, arguments) {
            Entry::Refused(outcome) => {
                &&& call_entry(procedures, active, second, callee, arguments) is Refused
                &&& call_entry(procedures, active, second, callee, arguments)->Refused_0.result
                    == outcome.result
                &&& same_layout(
                    call_entry(procedures, active, second, callee, arguments)->Refused_0.state,
                    outcome.state,
                )
            },
            Entry::Entered(k, bound) => {
                &&& call_entry(procedures, active, second, callee, arguments) is Entered
                &&& call_entry(procedures, active, second, callee, arguments)->Entered_0 == k
                &&& same_layout(
                    call_entry(procedures, active, second, callee, arguments)->Entered_1,
                    bound,
                )
            },
        },
{
    match find_procedure(procedures, callee.0, 0) {
        None => {},
        Some(k) => {
            let procedure = procedures[k];
            let locals = listed(procedure.locals);
            lemma_layout_independent(first, second, locals, Some(callee.0), locals.len());
            if first.laid_out(locals, Some(callee.0), locals.len()) is Some {
                lemma_formals_independent(
                    first.laid_out(locals, Some(callee.0), locals.len())->0,
                    second.laid_out(locals, Some(callee.0), locals.len())->0,
                    procedure.formals,
                    locals,
                    callee.0,
                    arguments,
                    arguments.len(),
                );
            }
        },
    }
}

/// The code of a list of commands and the memory of the variables behind it
/// go by the symbol table and the cursor alone.
pub proof fn lemma_commands_independent(
    procedures: Seq<BuilderModel>,
    active: Seq<bool>,
    first: ContextModel,
    second: ContextModel,
    commands: Seq<CommandModel>,
    count: nat,
)
    requires
        same_layout(first, second),
    ensures
        commands_outcome(procedures, active, first, commands, count).result == commands_outcome(
            procedures,
            active,
            second,
            commands,
            count,
        ).result,
        same_layout(
            commands_outcome(procedures, active, first, commands, count).state,
            commands_outcome(procedures, active, second, commands, count).state,
        ),
    decreases idle(active), commands, count,
{
    if count > 0 && count <= commands.len() {
        lemma_commands_independent(
            procedures,
            active,
            first,
            second,
            commands,
            (count - 1) as nat,
        );
        let before_first = commands_outcome(
            procedures,
            active,
            first,
            commands,
            (count - 1) as nat,
        );
        let before_second = commands_outcome(
            procedures,
            active,
            second,
            commands,
            (count - 1) as nat,
        );
        if before_first.result is Ok {
            lemma_command_independent(
                procedures,
                active,
                before_first.state,
                before_second.state,
                commands[count - 1],
            );
        }
    }
}

} // verus!
