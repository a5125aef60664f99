//! Code for commands: the code generator proper. Every function here is
//! held to the outcome that `outcome` states for its input.
use crate::ast::{
    command_model, commands_model, declarations_model, formals_model, name_model, names_model,
    optional_declarations_model, ArgumentModel, ArgumentsDeclarationVariant, Command, CommandModel,
    DeclarationModel, DeclarationVariant, Declarations, NameModel, Pidentifier,
};
use crate::blocks::{
    if_code, lemma_closed_concat, lemma_if_width, lemma_repeat_width, lemma_while_width,
    repeat_code, while_code,
};
use crate::closure::lemma_command_closed;
use crate::condition::{branch_backward, branch_forward, count_branches, lemma_operands_code_plain};
use crate::context::{declaration_name, lemma_declared_valid, owner_model, Context, ContextModel};
use crate::error::{CompilerError, ErrorModel, Stop, StopModel};
use crate::instruction::{closed, join, total_width, width, Instruction, Register};
use crate::memory::VariableVariant;
use crate::names::{mentions, mentions_owner, qualify};
use crate::outcome::{
    any_mentions, call_entry, command_outcome, commands_outcome, done, find_procedure, formal_bound,
    formals_bound, idle, lemma_idle_update, limited, listed, shadowing, Entry, Outcome, CODE_LIMIT,
};
use crate::rename::{BuilderModel, ProcedureBuilder};
use crate::value::identifier_name;
use vstd::prelude::*;

verus! {

/// The models of a list of prepared procedures.
pub open spec fn builders_model(procedures: Seq<ProcedureBuilder>) -> Seq<BuilderModel> {
    Seq::new(procedures.len(), |i: int| procedures[i]@)
}

/// Whether a result of code generation is the expected one.
pub open spec fn agrees(
    result: Result<Vec<Instruction>, Stop>,
    expected: Result<Seq<Instruction>, StopModel>,
) -> bool {
    match result {
        Ok(code) => expected == Ok::<Seq<Instruction>, StopModel>(code@),
        Err(stop) => expected == Err::<Seq<Instruction>, StopModel>(stop@),
    }
}

/// Whether code generation ended as `expected`: with the expected code or
/// reason to stop, in the expected state, and with the marks of the
/// procedures under expansion as they were. Code that is handed out has no
/// jump that leaves it and fits under the limit.
pub open spec fn compiled(
    result: Result<Vec<Instruction>, Stop>,
    active_before: Seq<bool>,
    active_after: Seq<bool>,
    state: ContextModel,
    expected: Outcome,
) -> bool {
    &&& agrees(result, expected.result)
    &&& state.valid()
    &&& state == expected.state
    &&& active_after == active_before
    &&& match result {
        Ok(code) => closed(code@) && width(code@) <= CODE_LIMIT,
        Err(_) => true,
    }
}

/// Once the commands of a list have met an error, the rest of the list
/// changes nothing.
pub proof fn lemma_commands_stop(
    procedures: Seq<BuilderModel>,
    active: Seq<bool>,
    state: ContextModel,
    commands: Seq<CommandModel>,
    count: nat,
    later: nat,
)
    requires
        count <= later <= commands.len(),
        commands_outcome(procedures, active, state, commands, count).result is Err,
    ensures
        commands_outcome(procedures, active, state, commands, later) == commands_outcome(
            procedures,
            active,
            state,
            commands,
            count,
        ),
    decreases later,
{
    if later > count {
        lemma_commands_stop(procedures, active, state, commands, count, (later - 1) as nat);
    }
}

/// The index of the procedure called `name`.
pub fn find_procedure_index(procedures: &Vec<ProcedureBuilder>, name: &String) -> (found: Option<
    usize,
>)
    ensures
        match found {
            Some(k) => find_procedure(builders_model(procedures@), name@, 0) == Some(k as int) && k
                < procedures.len(),
            None => find_procedure(builders_model(procedures@), name@, 0) is None,
        },
{
    let mut i: usize = 0;
    while i < procedures.len()
        invariant
            i <= procedures.len(),
            find_procedure(builders_model(procedures@), name@, 0) == find_procedure(
                builders_model(procedures@),
                name@,
                i as nat,
            ),
        decreases procedures.len() - i,
    {
        if *procedures[i].name() == *name {
            return Some(i);
        }
        i += 1;
    }
    None
}

/// Whether one of the arguments belongs to procedure `owner`.
fn mentions_any(arguments: &Vec<Pidentifier>, owner: &String) -> (found: bool)
    ensures
        found == any_mentions(names_model(arguments@), owner@),
{
    let mut i: usize = 0;
    while i < arguments.len()
        invariant
            i <= arguments.len(),
            forall|j: int|
                0 <= j < i ==> !mentions(
                    #[trigger] names_model(arguments@)[j].0,
                    owner@,
                ),
        decreases arguments.len() - i,
    {
        if mentions_owner(&arguments[i].0, owner) {
            assert(mentions(names_model(arguments@)[i as int].0, owner@));
            return true;
        }
        i += 1;
    }
    false
}

/// The name that a declaration declares.
fn declared_name(declaration: &DeclarationVariant) -> (id: &Pidentifier)
    ensures
        name_model(*id) == declaration_name(declaration@),
{
    match declaration {
        DeclarationVariant::Base(id) => id,
        DeclarationVariant::NumIndexed(id, _) => id,
    }
}

/// Gives the declarations fresh memory, one behind the other, and says
/// whether the address space could hold them all. If not, those before the
/// first that does not fit have their memory.
pub fn lay_out(context: &mut Context, declarations: &Option<Declarations>, owner: Option<&String>)
    -> (fits: bool)
    requires
        old(context)@.valid(),
    ensures
        final(context)@.valid(),
        fits == old(context)@.laid_out(
            listed(optional_declarations_model(*declarations)),
            owner_model(owner),
            listed(optional_declarations_model(*declarations)).len(),
        ).is_some(),
        final(context)@ == old(context)@.laid_out_at_most(
            listed(optional_declarations_model(*declarations)),
            owner_model(owner),
            listed(optional_declarations_model(*declarations)).len(),
        ),
{
    match declarations {
        None => true,
        Some(list) => {
            let ghost model = listed(optional_declarations_model(*declarations));
            let ghost scope = owner_model(owner);
            let ghost start = context@;
            let mut i: usize = 0;
            while i < list.len()
                invariant
                    i <= list.len(),
                    model == declarations_model(list@),
                    model == listed(optional_declarations_model(*declarations)),
                    scope == owner_model(owner),
                    start == old(context)@,
                    context@.valid(),
                    start.laid_out(model, scope, i as nat) == Some(context@),
                    start.laid_out_at_most(model, scope, i as nat) == context@,
                decreases list.len() - i,
            {
                let ghost before = context@;
                proof {
                    assert(model[i as int] == list@[i as int]@);
                    assert(start.laid_out(model, scope, (i + 1) as nat) == before.declared(
                        model[i as int],
                        scope,
                    ));
                }
                if !context.declare(&list[i], owner) {
                    proof {
                        lemma_laid_out_stops(start, model, scope, (i + 1) as nat, model.len());
                        lemma_laid_out_at_most_stops(
                            start,
                            model,
                            scope,
                            i as nat,
                            model.len(),
                        );
                    }
                    return false;
                }
                proof {
                    lemma_declared_valid(before, model[i as int], scope);
                }
                i += 1;
            }
            true
        },
    }
}

/// Once a declaration does not fit, the rest of the list does not either.
pub proof fn lemma_laid_out_stops(
    state: ContextModel,
    declarations: Seq<DeclarationModel>,
    owner: Option<Seq<char>>,
    count: nat,
    later: nat,
)
    requires
        count <= later <= declarations.len(),
        state.laid_out(declarations, owner, count) is None,
    ensures
        state.laid_out(declarations, owner, later) is None,
    decreases later,
{
    if later > count {
        lemma_laid_out_stops(state, declarations, owner, count, (later - 1) as nat);
    }
}

/// Once a declaration does not fit, the state stays as it was before it.
pub proof fn lemma_laid_out_at_most_stops(
    state: ContextModel,
    declarations: Seq<DeclarationModel>,
    owner: Option<Seq<char>>,
    count: nat,
    later: nat,
)
    requires
        count < later <= declarations.len(),
        state.laid_out(declarations, owner, (count + 1) as nat) is None,
    ensures
        state.laid_out_at_most(declarations, owner, later) == state.laid_out_at_most(
            declarations,
            owner,
            count,
        ),
    decreases later,
{
    lemma_laid_out_stops(state, declarations, owner, (count + 1) as nat, later);
    if later > count + 1 {
        lemma_laid_out_at_most_stops(state, declarations, owner, count, (later - 1) as nat);
    }
}

/// The first local declaration that declares `name`.
fn shadowing_local<'a>(declarations: &'a Option<Declarations>, name: &String) -> (found: Option<
    &'a Pidentifier,
>)
    ensures
        match found {
            Some(id) => shadowing(
                listed(optional_declarations_model(*declarations)),
                name@,
                0,
            ) == Some(name_model(*id)),
            None => shadowing(listed(optional_declarations_model(*declarations)), name@, 0)
                is None,
        },
{
    match declarations {
        None => None,
        Some(list) => {
            let ghost model = listed(optional_declarations_model(*declarations));
            let mut i: usize = 0;
            while i < list.len()
                invariant
                    i <= list.len(),
                    model == declarations_model(list@),
                    model == listed(optional_declarations_model(*declarations)),
                    shadowing(model, name@, 0) == shadowing(model, name@, i as nat),
                decreases list.len() - i,
            {
                let id = declared_name(&list[i]);
                proof {
                    assert(model[i as int] == list@[i as int]@);
                }
                if id.0 == *name {
                    return Some(id);
                }
                i += 1;
            }
            None
        },
    }
}

/// Binds one formal parameter of procedure `owner` to the region of its
/// argument.
fn bind_formal(
    context: &mut Context,
    formal: &ArgumentsDeclarationVariant,
    locals: &Option<Declarations>,
    owner: &String,
    argument: &Pidentifier,
) -> (result: Result<(), CompilerError>)
    requires
        old(context)@.valid(),
    ensures
        final(context)@.valid(),
        final(context)@ == formal_bound(
            old(context)@,
            formal@,
            listed(optional_declarations_model(*locals)),
            owner@,
            name_model(*argument),
        ).0,
        match result {
            Ok(_) => formal_bound(
                old(context)@,
                formal@,
                listed(optional_declarations_model(*locals)),
                owner@,
                name_model(*argument),
            ).1 is None,
            Err(error) => formal_bound(
                old(context)@,
                formal@,
                listed(optional_declarations_model(*locals)),
                owner@,
                name_model(*argument),
            ).1 == Some(error@),
        },
{
    let (id, scalar) = match formal {
        ArgumentsDeclarationVariant::Base(id) => (id, true),
        ArgumentsDeclarationVariant::Table(id) => (id, false),
    };
    match shadowing_local(locals, &id.0) {
        Some(local) => {
            return Err(CompilerError::DuplicateVariableDeclaration(local.0.clone(), local.1));
        },
        None => {},
    }
    match context.lookup(&argument.0) {
        None => Err(CompilerError::UndeclaredVariable(argument.0.clone(), argument.1)),
        Some(pointee) => {
            let atomic = match pointee {
                VariableVariant::Atomic(_) => true,
                VariableVariant::Table(_, _) => false,
            };
            if scalar == atomic {
                proof {
                    assert(context@.memory[argument.0@].end() <= context@.cursor);
                }
                context.mark_initialised(argument.0.clone());
                let full = qualify(&id.0, owner);
                context.bind(full.clone(), pointee);
                context.mark_initialised(full);
                Ok(())
            } else {
                Err(CompilerError::WrongArgumentType(id.0.clone(), id.1))
            }
        },
    }
}

/// Binds the formal parameters of procedure `owner` to the regions of the
/// arguments, in the order of their declaration.
fn bind_formals(
    context: &mut Context,
    formals: &Vec<ArgumentsDeclarationVariant>,
    locals: &Option<Declarations>,
    owner: &String,
    arguments: &Vec<Pidentifier>,
) -> (result: Result<(), CompilerError>)
    requires
        old(context)@.valid(),
        formals.len() == arguments.len(),
    ensures
        final(context)@.valid(),
        final(context)@ == formals_bound(
            old(context)@,
            formals_model(formals@),
            listed(optional_declarations_model(*locals)),
            owner@,
            names_model(arguments@),
            arguments.len() as nat,
        ).0,
        match result {
            Ok(_) => formals_bound(
                old(context)@,
                formals_model(formals@),
                listed(optional_declarations_model(*locals)),
                owner@,
                names_model(arguments@),
                arguments.len() as nat,
            ).1 is None,
            Err(error) => formals_bound(
                old(context)@,
                formals_model(formals@),
                listed(optional_declarations_model(*locals)),
                owner@,
                names_model(arguments@),
                arguments.len() as nat,
            ).1 == Some(error@),
        },
{
    let ghost start = context@;
    let ghost formal_models = formals_model(formals@);
    let ghost local_models = listed(optional_declarations_model(*locals));
    let ghost argument_models = names_model(arguments@);
    let mut i: usize = 0;
    while i < arguments.len()
        invariant
            i <= arguments.len(),
            formals.len() == arguments.len(),
            formal_models == formals_model(formals@),
            local_models == listed(optional_declarations_model(*locals)),
            argument_models == names_model(arguments@),
            start == old(context)@,
            context@.valid(),
            formals_bound(start, formal_models, local_models, owner@, argument_models, i as nat)
                == (context@, None::<ErrorModel>),
        decreases arguments.len() - i,
    {
        proof {
            assert(formal_models[i as int] == formals@[i as int]@);
            assert(argument_models[i as int] == name_model(arguments@[i as int]));
            assert(formals_bound(
                start,
                formal_models,
                local_models,
                owner@,
                argument_models,
                (i + 1) as nat,
            ) == formal_bound(
                context@,
                formal_models[i as int],
                local_models,
                owner@,
                argument_models[i as int],
            ));
        }
        match bind_formal(context, &formals[i], locals, owner, &arguments[i]) {
            Ok(_) => {},
            Err(error) => {
                proof {
                    lemma_formals_stop(
                        start,
                        formal_models,
                        local_models,
                        owner@,
                        argument_models,
                        (i + 1) as nat,
                        arguments.len() as nat,
                    );
                }
                return Err(error);
            },
        }
        i += 1;
    }
    Ok(())
}

/// Once a formal parameter is rejected, the rest of the list changes nothing.
pub proof fn lemma_formals_stop(
    state: ContextModel,
    formals: Seq<ArgumentModel>,
    locals: Seq<DeclarationModel>,
    owner: Seq<char>,
    arguments: Seq<NameModel>,
    count: nat,
    later: nat,
)
    requires
        count <= later,
        later <= formals.len(),
        later <= arguments.len(),
        formals_bound(state, formals, locals, owner, arguments, count).1 is Some,
    ensures
        formals_bound(state, formals, locals, owner, arguments, later) == formals_bound(
            state,
            formals,
            locals,
            owner,
            arguments,
            count,
        ),
    decreases later,
{
    if later > count {
        lemma_formals_stop(state, formals, locals, owner, arguments, count, (later - 1) as nat);
    }
}

/// Whether a call ended before the body as `expected`.
pub open spec fn entered(result: Result<usize, Stop>, state: ContextModel, expected: Entry)
    -> bool {
    match expected {
        Entry::Refused(outcome) => {
            &&& result is Err
            &&& outcome.result == Err::<Seq<Instruction>, StopModel>(result->Err_0@)
            &&& state == outcome.state
        },
        Entry::Entered(k, bound) => result == Ok::<usize, Stop>(k as usize) && state == bound,
    }
}

/// Checks a call, gives the callee's local variables memory and binds its
/// formal parameters. Returns the index of the callee.
pub fn enter_call(
    procedures: &Vec<ProcedureBuilder>,
    active: &Vec<bool>,
    context: &mut Context,
    callee: &Pidentifier,
    arguments: &Vec<Pidentifier>,
) -> (result: Result<usize, Stop>)
    requires
        old(context)@.valid(),
        active.len() == procedures.len(),
    ensures
        final(context)@.valid(),
        entered(
            result,
            final(context)@,
            call_entry(
                builders_model(procedures@),
                active@,
                old(context)@,
                name_model(*callee),
                names_model(arguments@),
            ),
        ),
        result matches Ok(k) ==> k < procedures.len() && !active[k as int],
{
    let k = match find_procedure_index(procedures, &callee.0) {
        Some(k) => k,
        None => {
            return Err(
                Stop::Fault(CompilerError::UndeclaredProcedure(callee.0.clone(), callee.1)),
            );
        },
    };
    let builder = &procedures[k];
    if arguments.len() != builder.declared_arguments().len() {
        return Err(Stop::Fault(CompilerError::WrongNumberOfArguments(callee.0.clone(), callee.1)));
    }
    if mentions_any(arguments, &callee.0) || active[k] {
        return Err(Stop::Fault(CompilerError::RecursiveProcedureCall(callee.0.clone(), callee.1)));
    }
    if !lay_out(context, builder.declarations(), Some(&callee.0)) {
        return Err(Stop::Exhausted);
    }
    match bind_formals(
        context,
        builder.declared_arguments(),
        builder.declarations(),
        &callee.0,
        arguments,
    ) {
        Ok(_) => Ok(k),
        Err(error) => Err(Stop::Fault(error)),
    }
}

/// Compiles the commands of a list, one behind the other.
pub fn construct_commands(
    procedures: &Vec<ProcedureBuilder>,
    active: &mut Vec<bool>,
    context: &mut Context,
    commands: &Vec<Command>,
) -> (result: Result<Vec<Instruction>, Stop>)
    requires
        old(context)@.valid(),
        old(active).len() == procedures.len(),
    ensures
        compiled(
            result,
            old(active)@,
            final(active)@,
            final(context)@,
            commands_outcome(
                builders_model(procedures@),
                old(active)@,
                old(context)@,
                commands_model(commands@),
                commands.len() as nat,
            ),
        ),
    decreases idle(old(active)@), commands, 0nat,
{
    let ghost procs = builders_model(procedures@);
    let ghost start = context@;
    let ghost marks = active@;
    let ghost model = commands_model(commands@);
    let mut instructions: Vec<Instruction> = Vec::new();
    let mut length: u64 = 0;
    let mut i: usize = 0;
    while i < commands.len()
        invariant
            i <= commands.len(),
            procs == builders_model(procedures@),
            model == commands_model(commands@),
            start == old(context)@,
            marks == old(active)@,
            active@ == marks,
            active.len() == procedures.len(),
            context@.valid(),
            commands_outcome(procs, marks, start, model, i as nat) == done(
                context@,
                instructions@,
            ),
            closed(instructions@),
            length == width(instructions@),
            length <= CODE_LIMIT,
        decreases commands.len() - i,
    {
        let ghost before = context@;
        let ghost code = instructions@;
        proof {
            assert(model[i as int] == command_model(commands@[i as int]));
            let next = command_outcome(procs, marks, before, model[i as int]);
            let step = match next.result {
                Err(_) => next,
                Ok(more) => limited(next.state, code + more),
            };
            assert(commands_outcome(procs, marks, start, model, (i + 1) as nat) == step);
        }
        let more = match construct_command(procedures, active, context, &commands[i]) {
            Ok(code) => code,
            Err(stop) => {
                proof {
                    lemma_commands_stop(
                        procs,
                        marks,
                        start,
                        model,
                        (i + 1) as nat,
                        commands.len() as nat,
                    );
                }
                return Err(stop);
            },
        };
        let more_length = total_width(&more);
        proof {
            lemma_closed_concat(code, more@);
        }
        if more_length > CODE_LIMIT - length {
            proof {
                lemma_commands_stop(
                    procs,
                    marks,
                    start,
                    model,
                    (i + 1) as nat,
                    commands.len() as nat,
                );
            }
            return Err(Stop::Exhausted);
        }
        join(&mut instructions, more);
        length = length + more_length;
        i += 1;
    }
    Ok(instructions)
}

/// Compiles one command.
#[verifier::rlimit(40)]
pub fn construct_command(
    procedures: &Vec<ProcedureBuilder>,
    active: &mut Vec<bool>,
    context: &mut Context,
    command: &Command,
) -> (result: Result<Vec<Instruction>, Stop>)
    requires
        old(context)@.valid(),
        old(active).len() == procedures.len(),
    ensures
        compiled(
            result,
            old(active)@,
            final(active)@,
            final(context)@,
            command_outcome(builders_model(procedures@), old(active)@, old(context)@, command@),
        ),
    decreases idle(old(active)@), command, 0nat,
{
    let ghost procs = builders_model(procedures@);
    let ghost start = context@;
    proof {
        lemma_command_closed(procs, active@, start, command@);
    }
    match command {
        Command::Assign(identifier, expression) => {
            let id = identifier_name(identifier);
            context.mark_initialised(id.0.clone());
            let mut instructions = match context.get_pointer_from_identifier(identifier) {
                Ok(code) => code,
                Err(error) => {
                    return Err(Stop::Fault(error));
                },
            };
            let ghost target = instructions@;
            instructions.push(Instruction::Put(Register::G));
            let value = match context.construct_expression(expression) {
                Ok(code) => code,
                Err(error) => {
                    return Err(Stop::Fault(error));
                },
            };
            join(&mut instructions, value);
            instructions.push(Instruction::Store(Register::G));
            proof {
                assert(instructions@ =~= target + seq![Instruction::Put(Register::G)] + value@
                    + seq![Instruction::Store(Register::G)]);
            }
            Ok(instructions)
        },
        Command::Read(identifier) => {
            let id = identifier_name(identifier);
            context.mark_initialised(id.0.clone());
            let mut instructions = match context.get_pointer_from_identifier(identifier) {
                Ok(code) => code,
                Err(error) => {
                    return Err(Stop::Fault(error));
                },
            };
            let ghost target = instructions@;
            let ghost tail = seq![
                Instruction::Put(Register::G),
                Instruction::Read,
                Instruction::Store(Register::G),
            ];
            instructions.push(Instruction::Put(Register::G));
            instructions.push(Instruction::Read);
            instructions.push(Instruction::Store(Register::G));
            proof {
                assert(instructions@ =~= target + tail);
            }
            Ok(instructions)
        },
        Command::Write(value) => {
            let mut instructions = match context.extract_value(value) {
                Ok(code) => code,
                Err(error) => {
                    return Err(Stop::Fault(error));
                },
            };
            instructions.push(Instruction::Write);
            Ok(instructions)
        },
        Command::If(condition, commands, else_commands) => {
            let sub_instructions = match construct_commands(procedures, active, context, commands) {
                Ok(code) => code,
                Err(stop) => {
                    return Err(stop);
                },
            };
            let sub_instructions_length = total_width(&sub_instructions);
            let (has_else, sub_else_instructions) = match else_commands {
                Some(list) => match construct_commands(procedures, active, context, list) {
                    Ok(code) => (true, code),
                    Err(stop) => {
                        return Err(stop);
                    },
                },
                None => (false, Vec::new()),
            };
            let sub_else_instruction_length = total_width(&sub_else_instructions);
            let ghost tested = context@;
            let mut instructions = match context.load_operands(condition) {
                Ok(code) => code,
                Err(error) => {
                    return Err(Stop::Fault(error));
                },
            };
            let ghost operands = instructions@;
            let ghost else_code = if has_else {
                Some(sub_else_instructions@)
            } else {
                None
            };
            proof {
                lemma_operands_code_plain(tested.memory, condition@);
                lemma_if_width(operands, condition@, sub_instructions@, else_code);
            }
            let branches = count_branches(condition);
            let tail: u128 = if has_else {
                sub_else_instruction_length as u128 + 1
            } else {
                0
            };
            let total: u128 = instructions.len() as u128 + branches as u128
                + sub_instructions_length as u128 + tail;
            if total > CODE_LIMIT as u128 {
                return Err(Stop::Exhausted);
            }
            let skip: u64 = if has_else {
                sub_instructions_length + 1
            } else {
                sub_instructions_length
            };
            join(&mut instructions, branch_forward(condition, skip as i64));
            join(&mut instructions, sub_instructions);
            if has_else {
                instructions.push(Instruction::Jump(sub_else_instruction_length as i64 + 1));
                join(&mut instructions, sub_else_instructions);
            }
            proof {
                let expected = if_code(operands, condition@, sub_instructions@, else_code);
                assert(instructions@ =~= expected);
            }
            Ok(instructions)
        },
        Command::While(condition, commands) => {
            let sub_instructions = match construct_commands(procedures, active, context, commands) {
                Ok(code) => code,
                Err(stop) => {
                    return Err(stop);
                },
            };
            let sub_instructions_length = total_width(&sub_instructions);
            let ghost tested = context@;
            let mut instructions = match context.load_operands(condition) {
                Ok(code) => code,
                Err(error) => {
                    return Err(Stop::Fault(error));
                },
            };
            let ghost operands = instructions@;
            proof {
                lemma_operands_code_plain(tested.memory, condition@);
                lemma_while_width(operands, condition@, sub_instructions@);
            }
            let branches = count_branches(condition);
            let total: u128 = instructions.len() as u128 + branches as u128
                + sub_instructions_length as u128 + 1;
            if total > CODE_LIMIT as u128 {
                return Err(Stop::Exhausted);
            }
            let back: u64 = instructions.len() as u64 + branches + sub_instructions_length;
            let skip: u64 = sub_instructions_length + 1;
            join(&mut instructions, branch_forward(condition, skip as i64));
            join(&mut instructions, sub_instructions);
            instructions.push(Instruction::Jump(-(back as i64)));
            proof {
                assert(instructions@ =~= while_code(operands, condition@, sub_instructions@));
            }
            Ok(instructions)
        },
        Command::Repeat(commands, condition) => {
            let mut instructions = match construct_commands(procedures, active, context, commands) {
                Ok(code) => code,
                Err(stop) => {
                    return Err(stop);
                },
            };
            let ghost body = instructions@;
            let sub_instructions_length = total_width(&instructions);
            let ghost tested = context@;
            let cond_instructions = match context.load_operands(condition) {
                Ok(code) => code,
                Err(error) => {
                    return Err(Stop::Fault(error));
                },
            };
            let ghost operands = cond_instructions@;
            proof {
                lemma_operands_code_plain(tested.memory, condition@);
                lemma_repeat_width(body, operands, condition@);
            }
            let branches = count_branches(condition);
            let total: u128 = cond_instructions.len() as u128 + branches as u128
                + sub_instructions_length as u128;
            if total > CODE_LIMIT as u128 {
                return Err(Stop::Exhausted);
            }
            let back: u64 = sub_instructions_length + cond_instructions.len() as u64;
            join(&mut instructions, cond_instructions);
            join(&mut instructions, branch_backward(condition, back as i64));
            proof {
                assert(instructions@ =~= repeat_code(body, operands, condition@));
            }
            Ok(instructions)
        },
        Command::ProcCall(call) => {
            let k = match enter_call(procedures, active, context, &call.0, &call.1) {
                Ok(k) => k,
                Err(stop) => {
                    return Err(stop);
                },
            };
            let ghost marks = active@;
            proof {
                lemma_idle_update(marks, k as int);
            }
            active.set(k, true);
            let result = construct_commands(procedures, active, context, procedures[k].commands());
            active.set(k, false);
            proof {
                assert(active@ =~= marks);
            }
            result
        },
    }
}

} // verus!
