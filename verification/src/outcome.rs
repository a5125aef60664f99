//! What code generation gives for a command, as functions from the state
//! and the command to the new state and the code. The code generator is held
//! to these functions, and the laws of the crate are proved of them.
//!
//! Procedures are inlined. A call gives the callee's local variables fresh
//! memory, binds each formal parameter to the region of its argument and
//! compiles the callee's body in place. A call of a procedure whose body is
//! being expanded is rejected, so every expansion ends.
use crate::ast::{ArgumentModel, CommandModel, DeclarationModel, NameModel};
use crate::blocks::{if_code, repeat_code, while_code};
use crate::condition::{operands_code, operands_noted};
use crate::context::{declaration_name, ContextModel};
use crate::error::{ErrorModel, StopModel};
use crate::instruction::{width, Instruction, Register};
use crate::memory::{lookup, VariableVariant};
use crate::names::{mentions, qualified};
use crate::rename::BuilderModel;
use crate::value::{
    base_name, expression_code, expression_noted, pointer_code, pointer_noted, value_code,
    value_noted,
};
use vstd::prelude::*;

verus! {

/// The most lines that a block of code may take: jump offsets and line
/// numbers are signed 64-bit numbers.
pub const CODE_LIMIT: u64 = 0x7fff_ffff_ffff_ffff;

/// What code generation gives: the state it ends in, and the code or the
/// reason why it stopped.
pub struct Outcome {
    pub state: ContextModel,
    pub result: Result<Seq<Instruction>, StopModel>,
}

/// Code generation went well and gave `code`.
pub open spec fn done(state: ContextModel, code: Seq<Instruction>) -> Outcome {
    Outcome { state, result: Ok(code) }
}

/// The program is rejected with `error`.
pub open spec fn rejected(state: ContextModel, error: ErrorModel) -> Outcome {
    Outcome { state, result: Err(StopModel::Fault(error)) }
}

/// The program is larger than the machine can hold.
pub open spec fn exhausted(state: ContextModel) -> Outcome {
    Outcome { state, result: Err(StopModel::Exhausted) }
}

/// The code if it fits under the limit.
pub open spec fn limited(state: ContextModel, code: Seq<Instruction>) -> Outcome {
    if width(code) <= CODE_LIMIT {
        done(state, code)
    } else {
        exhausted(state)
    }
}

/// The number of procedures that are not being expanded.
pub open spec fn idle(active: Seq<bool>) -> nat
    decreases active.len(),
{
    if active.len() == 0 {
        0
    } else {
        idle(active.drop_last()) + if active.last() {
            0nat
        } else {
            1nat
        }
    }
}

/// Whether procedure `k` is being expanded. A procedure that `active` does
/// not cover counts as being expanded.
pub open spec fn expanding(active: Seq<bool>, k: int) -> bool {
    !(0 <= k < active.len()) || active[k]
}

/// Marking a procedure that is not being expanded leaves one procedure less
/// that is not.
pub proof fn lemma_idle_update(active: Seq<bool>, k: int)
    requires
        !expanding(active, k),
    ensures
        idle(active.update(k, true)) + 1 == idle(active),
    decreases active.len(),
{
    let marked = active.update(k, true);
    if k == active.len() - 1 {
        assert(marked.drop_last() =~= active.drop_last());
    } else {
        lemma_idle_update(active.drop_last(), k);
        assert(marked.drop_last() =~= active.drop_last().update(k, true));
    }
}

/// The index of the first procedure from `from` on that is called `name`.
pub open spec fn find_procedure(procedures: Seq<BuilderModel>, name: Seq<char>, from: nat)
    -> Option<int>
    decreases procedures.len() - from,
{
    if from >= procedures.len() {
        None
    } else if procedures[from as int].name == name {
        Some(from as int)
    } else {
        find_procedure(procedures, name, from + 1)
    }
}

/// Whether one of the arguments belongs to procedure `owner`.
pub open spec fn any_mentions(arguments: Seq<NameModel>, owner: Seq<char>) -> bool {
    exists|i: int| 0 <= i < arguments.len() && mentions(#[trigger] arguments[i].0, owner)
}

/// The declarations of a procedure or of the main block, as a list.
pub open spec fn listed(declarations: Option<Seq<DeclarationModel>>) -> Seq<DeclarationModel> {
    match declarations {
        Some(list) => list,
        None => Seq::empty(),
    }
}

/// The first declaration from `from` on that declares `name`.
pub open spec fn shadowing(locals: Seq<DeclarationModel>, name: Seq<char>, from: nat) -> Option<
    NameModel,
>
    decreases locals.len() - from,
{
    if from >= locals.len() {
        None
    } else if declaration_name(locals[from as int]).0 == name {
        Some(declaration_name(locals[from as int]))
    } else {
        shadowing(locals, name, from + 1)
    }
}

/// The name of a formal parameter, as the user wrote it.
pub open spec fn formal_name(formal: ArgumentModel) -> NameModel {
    match formal {
        ArgumentModel::Base(name) => name,
        ArgumentModel::Table(name) => name,
    }
}

/// Whether a region can be passed for a formal parameter: a single word for
/// a scalar, an array for an array.
pub open spec fn kinds_agree(formal: ArgumentModel, region: VariableVariant) -> bool {
    (formal is Base) == (region is Atomic)
}

/// The state after one formal parameter of procedure `owner` is bound to the
/// region of its argument, or the error that the call is rejected with.
///
/// The formal must not have the name of a local declaration, the argument
/// must be declared, and both must be scalars or both arrays. The formal then
/// shares the region of the argument, and both count as holding a value.
pub open spec fn formal_bound(
    state: ContextModel,
    formal: ArgumentModel,
    locals: Seq<DeclarationModel>,
    owner: Seq<char>,
    argument: NameModel,
) -> (ContextModel, Option<ErrorModel>) {
    let name = formal_name(formal);
    match shadowing(locals, name.0, 0) {
        Some(local) => (state, Some(ErrorModel::DuplicateVariableDeclaration(local.0, local.1))),
        None => match lookup(state.memory, argument.0) {
            None => (state, Some(ErrorModel::UndeclaredVariable(argument.0, argument.1))),
            Some(region) => if kinds_agree(formal, region) {
                (
                    state.marked(argument.0).bound(qualified(name.0, owner), region).marked(
                        qualified(name.0, owner),
                    ),
                    None,
                )
            } else {
                (state, Some(ErrorModel::WrongArgumentType(name.0, name.1)))
            },
        },
    }
}

/// The state after the first `count` formal parameters are bound, in the
/// order of their declaration, or the first error.
pub open spec fn formals_bound(
    state: ContextModel,
    formals: Seq<ArgumentModel>,
    locals: Seq<DeclarationModel>,
    owner: Seq<char>,
    arguments: Seq<NameModel>,
    count: nat,
) -> (ContextModel, Option<ErrorModel>)
    decreases count,
{
    if count == 0 || count > formals.len() || count > arguments.len() {
        (state, None)
    } else {
        let before = formals_bound(state, formals, locals, owner, arguments, (count - 1) as nat);
        if before.1 is Some {
            before
        } else {
            formal_bound(before.0, formals[count - 1], locals, owner, arguments[count - 1])
        }
    }
}

/// What a single command compiles to.
///
/// - An assignment counts its variable as holding a value, leaves the
///   address of the variable in `G`, computes the expression into `A` and
///   stores `A` at `G`.
/// - `READ` does the same with the number that is read.
/// - `WRITE` loads the value into `A` and writes it.
/// - A conditional and the two loops compile their commands first and the
///   condition behind them, so that the branches know how far to go; the
///   code is then laid out as `if_code`, `while_code` and `repeat_code` say.
/// - A call is checked, gives the callee's variables their memory, and
///   compiles the body of the callee in place, with the callee marked as
///   being expanded.
///
/// The first error in this order stops code generation, in the state in
/// which it is met. Code that would take more lines than `CODE_LIMIT` is not
/// made. `active` tells which procedures are being expanded around this
/// command.
pub open spec fn command_outcome(
    procedures: Seq<BuilderModel>,
    active: Seq<bool>,
    state: ContextModel,
    command: CommandModel,
) -> Outcome
    decreases idle(active), command, 0nat,
{
    match command {
        CommandModel::Assign(id, expression) => {
            let pointed = pointer_noted(state.marked(base_name(id).0), id);
            match pointer_code(state.memory, id) {
                Err(error) => rejected(pointed, error),
                Ok(target) => {
                    let computed = expression_noted(pointed, expression);
                    match expression_code(state.memory, expression) {
                        Err(error) => rejected(computed, error),
                        Ok(value) => done(
                            computed,
                            target + seq![Instruction::Put(Register::G)] + value + seq![
                                Instruction::Store(Register::G),
                            ],
                        ),
                    }
                },
            }
        },
        CommandModel::Read(id) => {
            let pointed = pointer_noted(state.marked(base_name(id).0), id);
            match pointer_code(state.memory, id) {
                Err(error) => rejected(pointed, error),
                Ok(target) => done(
                    pointed,
                    target + seq![
                        Instruction::Put(Register::G),
                        Instruction::Read,
                        Instruction::Store(Register::G),
                    ],
                ),
            }
        },
        CommandModel::Write(value) => match value_code(state.memory, value) {
            Err(error) => rejected(value_noted(state, value), error),
            Ok(code) => done(value_noted(state, value), code.push(Instruction::Write)),
        },
        CommandModel::If(condition, commands, otherwise) => {
            let then = commands_outcome(procedures, active, state, commands, commands.len());
            match then.result {
                Err(_) => then,
                Ok(then_code) => {
                    let other = match otherwise {
                        Some(list) => commands_outcome(
                            procedures,
                            active,
                            then.state,
                            list,
                            list.len(),
                        ),
                        None => done(then.state, Seq::empty()),
                    };
                    match other.result {
                        Err(_) => other,
                        Ok(else_code) => {
                            let tested = operands_noted(other.state, condition);
                            match operands_code(other.state.memory, condition) {
                                Err(error) => rejected(tested, error),
                                Ok(operands) => limited(
                                    tested,
                                    if_code(
                                        operands,
                                        condition,
                                        then_code,
                                        match otherwise {
                                            Some(_) => Some(else_code),
                                            None => None,
                                        },
                                    ),
                                ),
                            }
                        },
                    }
                },
            }
        },
        CommandModel::While(condition, commands) => {
            let body = commands_outcome(procedures, active, state, commands, commands.len());
            match body.result {
                Err(_) => body,
                Ok(body_code) => {
                    let tested = operands_noted(body.state, condition);
                    match operands_code(body.state.memory, condition) {
                        Err(error) => rejected(tested, error),
                        Ok(operands) => limited(
                            tested,
                            while_code(operands, condition, body_code),
                        ),
                    }
                },
            }
        },
        CommandModel::Repeat(commands, condition) => {
            let body = commands_outcome(procedures, active, state, commands, commands.len());
            match body.result {
                Err(_) => body,
                Ok(body_code) => {
                    let tested = operands_noted(body.state, condition);
                    match operands_code(body.state.memory, condition) {
                        Err(error) => rejected(tested, error),
                        Ok(operands) => limited(
                            tested,
                            repeat_code(body_code, operands, condition),
                        ),
                    }
                },
            }
        },
        CommandModel::ProcCall(callee, arguments) => match call_entry(
            procedures,
            active,
            state,
            callee,
            arguments,
        ) {
            Entry::Refused(outcome) => outcome,
            Entry::Entered(k, bound) => {
                proof {
                    lemma_idle_update(active, k);
                }
                commands_outcome(
                    procedures,
                    active.update(k, true),
                    bound,
                    procedures[k].commands,
                    procedures[k].commands.len(),
                )
            },
        },
    }
}

/// What the first `count` commands of a list compile to, one behind the
/// other.
pub open spec fn commands_outcome(
    procedures: Seq<BuilderModel>,
    active: Seq<bool>,
    state: ContextModel,
    commands: Seq<CommandModel>,
    count: nat,
) -> Outcome
    decreases idle(active), commands, count,
{
    if count == 0 || count > commands.len() {
        done(state, Seq::empty())
    } else {
        let before = commands_outcome(procedures, active, state, commands, (count - 1) as nat);
        match before.result {
            Err(_) => before,
            Ok(code) => {
                let next = command_outcome(procedures, active, before.state, commands[count - 1]);
                match next.result {
                    Err(_) => next,
                    Ok(more) => limited(next.state, code + more),
                }
            },
        }
    }
}

/// How a call ends before the callee's body is compiled.
pub enum Entry {
    /// The call is rejected, or the callee's variables do not fit: then the
    /// state is that with the variables that did fit.
    Refused(Outcome),
    /// The body of the procedure with this index is compiled next, in this
    /// state.
    Entered(int, ContextModel),
}

/// What a call of procedure `callee` with `arguments` does before the body of
/// the callee is compiled.
///
/// The procedure must be declared and take as many arguments as are given.
/// No argument may belong to the callee, and the callee's body must not be
/// under expansion already: either would be a recursive call. The local
/// declarations of the callee then get fresh memory under their qualified
/// names, and the formal parameters are bound.
pub open spec fn call_entry(
    procedures: Seq<BuilderModel>,
    active: Seq<bool>,
    state: ContextModel,
    callee: NameModel,
    arguments: Seq<NameModel>,
) -> Entry {
    match find_procedure(procedures, callee.0, 0) {
        None => Entry::Refused(
            rejected(state, ErrorModel::UndeclaredProcedure(callee.0, callee.1)),
        ),
        Some(k) => {
            let procedure = procedures[k];
            let locals = listed(procedure.locals);
            if arguments.len() != procedure.formals.len() {
                Entry::Refused(
                    rejected(state, ErrorModel::WrongNumberOfArguments(callee.0, callee.1)),
                )
            } else if any_mentions(arguments, callee.0) || expanding(active, k) {
                Entry::Refused(
                    rejected(state, ErrorModel::RecursiveProcedureCall(callee.0, callee.1)),
                )
            } else {
                match state.laid_out(locals, Some(callee.0), locals.len()) {
                    None => Entry::Refused(
                        exhausted(state.laid_out_at_most(locals, Some(callee.0), locals.len())),
                    ),
                    Some(laid) => {
                        let bound = formals_bound(
                            laid,
                            procedure.formals,
                            locals,
                            callee.0,
                            arguments,
                            arguments.len(),
                        );
                        match bound.1 {
                            Some(error) => Entry::Refused(rejected(bound.0, error)),
                            None => Entry::Entered(k, bound.0),
                        }
                    },
                }
            }
        },
    }
}

} // verus!
