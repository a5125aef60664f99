//! What holds of every program that the code generator accepts.
use crate::assembler::{all_idle, AssemblerModel};
use crate::ast::{program_model, Program, ProgramModel};
use crate::blocks::lemma_closed_concat;
use crate::closure::lemma_commands_closed;
use crate::instruction::{
    block_free, closed, lemma_block_free_concat, lemma_bounded_plain, lemma_width_block_free,
    line_of, width, Instruction,
};
use crate::outcome::{commands_outcome, CODE_LIMIT};
use crate::plain::{
    commands_are_simple, lemma_simple_commands, lemma_simple_program_prepared,
    procedures_are_simple, program_is_simple,
};
use crate::text::{
    div_lines, lemma_lines_at, lemma_lines_concat, lemma_lines_len, lemma_lines_targets, line_text,
    lines_from, mod_lines, mul_lines, program_lines, program_text, targets_within, text_of,
};
use vstd::prelude::*;

verus! {

/// Every jump of the final program goes to one of its lines or to the line
/// just behind the last: where no jump of the code leaves the code, every
/// `JUMP`, `JPOS` and `JZERO` of the text names a line between 0 and the
/// number of lines.
pub proof fn lemma_jumps_stay_in_program(code: Seq<Instruction>)
    requires
        closed(code),
        width(code) <= CODE_LIMIT,
    ensures
        program_lines(code).len() == width(code),
        targets_within(program_lines(code), 0, program_lines(code).len() as int),
{
    lemma_lines_len(code, 0);
    lemma_lines_targets(code, 0, 0, 0);
}

/// In the text of every program that the code generator accepts, every
/// `JUMP`, `JPOS` and `JZERO` names a line between 0 and the number of lines:
/// no jump of the code leaves the code, at whatever depth of conditionals,
/// loops and inlined procedures it stands.
pub proof fn lemma_program_jumps_in_range(model: AssemblerModel)
    requires
        model.well_formed(),
        model.main_outcome().result is Ok,
    ensures
        ({
            let code = model.main_outcome().result->Ok_0;
            &&& closed(code)
            &&& width(code) <= CODE_LIMIT
            &&& targets_within(program_lines(code), 0, program_lines(code).len() as int)
        }),
{
    let body = commands_outcome(
        model.procedures,
        all_idle(model.procedures.len()),
        model.state,
        model.commands,
        model.commands.len(),
    );
    let halt = seq![Instruction::Halt];
    lemma_commands_closed(
        model.procedures,
        all_idle(model.procedures.len()),
        model.state,
        model.commands,
        model.commands.len(),
    );
    lemma_closed_concat(model.code, body.result->Ok_0);
    lemma_bounded_plain(halt, 0, 0);
    lemma_closed_concat(model.code + body.result->Ok_0, halt);
    lemma_jumps_stay_in_program(model.main_outcome().result->Ok_0);
}

/// The code that the code generator hands out for a whole program ends in
/// `HALT`, and so does its text.
pub proof fn lemma_program_ends_with_halt(model: AssemblerModel)
    requires
        model.main_outcome().result is Ok,
    ensures
        ({
            let code = model.main_outcome().result->Ok_0;
            let lines = program_lines(code);
            &&& code.len() > 0
            &&& code.last() == Instruction::Halt
            &&& lines.len() > 0
            &&& lines.last() == Instruction::Halt
            &&& program_text(code) == text_of(lines, (lines.len() - 1) as nat) + line_text(
                Instruction::Halt,
            )
        }),
{
    let code = model.main_outcome().result->Ok_0;
    let front = code.drop_last();
    let halt = seq![Instruction::Halt];
    assert(code =~= front + halt);
    lemma_lines_concat(front, halt, 0);
    assert(halt.drop_last() =~= Seq::<Instruction>::empty());
    assert(lines_from(halt, width(front) as int) =~= halt);
}

/// Code without arithmetic blocks has one line for every pseudo-instruction.
pub proof fn lemma_plain_code_line_count(code: Seq<Instruction>)
    requires
        block_free(code),
    ensures
        program_lines(code).len() == code.len(),
{
    lemma_lines_len(code, 0);
    lemma_width_block_free(code);
}

/// A program without multiplication, division and remainder, in the main
/// block and in every procedure, has one line of text for every
/// pseudo-instruction.
pub proof fn lemma_simple_source_line_count(program: ProgramModel)
    requires
        program_is_simple(program),
        AssemblerModel::initial(program).main_outcome().result is Ok,
    ensures
        block_free(AssemblerModel::initial(program).main_outcome().result->Ok_0),
        program_lines(AssemblerModel::initial(program).main_outcome().result->Ok_0).len()
            == AssemblerModel::initial(program).main_outcome().result->Ok_0.len(),
{
    lemma_simple_program_prepared(program);
    lemma_simple_program_line_count(AssemblerModel::initial(program));
}

/// Where the code made so far, the main block and every prepared procedure
/// are without multiplication, division and remainder, the program has one
/// line of text for every pseudo-instruction.
pub proof fn lemma_simple_program_line_count(model: AssemblerModel)
    requires
        block_free(model.code),
        procedures_are_simple(model.procedures),
        commands_are_simple(model.commands, model.commands.len()),
        model.main_outcome().result is Ok,
    ensures
        block_free(model.main_outcome().result->Ok_0),
        program_lines(model.main_outcome().result->Ok_0).len()
            == model.main_outcome().result->Ok_0.len(),
{
    let body = commands_outcome(
        model.procedures,
        all_idle(model.procedures.len()),
        model.state,
        model.commands,
        model.commands.len(),
    );
    lemma_simple_commands(
        model.procedures,
        all_idle(model.procedures.len()),
        model.state,
        model.commands,
        model.commands.len(),
    );
    lemma_block_free_concat(model.code, body.result->Ok_0);
    lemma_block_free_concat(model.code + body.result->Ok_0, seq![Instruction::Halt]);
    lemma_plain_code_line_count(model.main_outcome().result->Ok_0);
}

/// Every arithmetic block of the code stands in the final program with
/// exactly its lines: 18 for a multiplication, 23 for a division, 24 for a
/// remainder, beginning on the line that the widths of the instructions
/// before it give.
pub proof fn lemma_block_lines(code: Seq<Instruction>, i: int)
    requires
        0 <= i < code.len(),
        code[i].is_block(),
    ensures
        ({
            let at = line_of(code, i) as int;
            let lines = program_lines(code);
            let count: int = match code[i] {
                Instruction::Mul => 18,
                Instruction::Div => 23,
                _ => 24,
            };
            &&& at + count <= lines.len()
            &&& lines.subrange(at, at + count) == match code[i] {
                Instruction::Mul => mul_lines(at),
                Instruction::Div => div_lines(at),
                _ => mod_lines(at),
            }
            &&& lines.subrange(at, at + count).len() == count
        }),
{
    lemma_lines_at(code, i);
}

/// The lines of a program are as many as the widths of its instructions add
/// up to.
pub proof fn lemma_line_count(code: Seq<Instruction>)
    ensures
        program_lines(code).len() == width(code),
{
    lemma_lines_len(code, 0);
}

/// What the code generator gives depends on the program alone: two trees
/// with the same model end in the same state, with the same code or the same
/// error, and the same text.
pub proof fn lemma_compilation_is_a_function(first: Program, second: Program)
    requires
        program_model(first) == program_model(second),
    ensures
        AssemblerModel::initial(program_model(first)) == AssemblerModel::initial(
            program_model(second),
        ),
        AssemblerModel::initial(program_model(first)).main_outcome() == AssemblerModel::initial(
            program_model(second),
        ).main_outcome(),
        assembly_of(program_model(first)) == assembly_of(program_model(second)),
{
}

/// The text of the assembly of a program that is accepted.
pub open spec fn assembly_of(program: ProgramModel) -> Option<Seq<char>> {
    match AssemblerModel::initial(program).main_outcome().result {
        Ok(code) => Some(program_text(code)),
        Err(_) => None,
    }
}

} // verus!
