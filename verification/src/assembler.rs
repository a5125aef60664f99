//! The code generator: from a program to the text of its assembly.
use crate::ast::{
    commands_model, procedure_model, procedures_model, program_model, CommandModel, Main, NameModel,
    Procedure, ProcedureModel, Program, ProgramModel,
};
use crate::blocks::lemma_closed_concat;
use crate::command::{builders_model, construct_commands, lay_out};
use crate::context::{texts, Context, ContextModel};
use crate::error::{CompilerError, ErrorModel, Stop, StopModel};
use crate::instruction::{
    closed, join, lemma_bounded_plain, lemma_width_push, total_width, width, Instruction,
};
use crate::outcome::{commands_outcome, exhausted, limited, listed, Outcome, CODE_LIMIT};
use crate::rename::{prepared, BuilderModel, ProcedureBuilder};
use crate::text::{program_text, render, resolve};
use vstd::prelude::*;

verus! {

/// Whether one of the first `upto` procedures is called `name`.
pub open spec fn named_before(procedures: Seq<ProcedureModel>, name: Seq<char>, upto: int)
    -> bool {
    exists|j: int|
        0 <= j < upto && j < procedures.len() && (#[trigger] procedures[j]).name.0 == name
}

/// Among the first `count` procedures, the first whose name an earlier
/// procedure has already.
pub open spec fn first_duplicate(procedures: Seq<ProcedureModel>, count: nat) -> Option<NameModel>
    decreases count,
{
    if count == 0 || count > procedures.len() {
        None
    } else {
        match first_duplicate(procedures, (count - 1) as nat) {
            Some(name) => Some(name),
            None => if named_before(procedures, procedures[count - 1].name.0, count - 1) {
                Some(procedures[count - 1].name)
            } else {
                None
            },
        }
    }
}

/// The procedures of a program, each prepared for inlining.
pub open spec fn prepared_all(procedures: Seq<ProcedureModel>) -> Seq<BuilderModel> {
    Seq::new(procedures.len(), |i: int| prepared(procedures[i]))
}

/// No procedure under expansion, for `count` procedures.
pub open spec fn all_idle(count: nat) -> Seq<bool> {
    Seq::new(count, |i: int| false)
}

/// No two procedures have the same name.
pub open spec fn distinct_names(procedures: Seq<BuilderModel>) -> bool {
    forall|i: int, j: int|
        0 <= i < j < procedures.len() ==> (#[trigger] procedures[i]).name != (
        #[trigger] procedures[j]).name
}

/// The model of the code generator.
pub struct AssemblerModel {
    /// The pseudo-instructions made so far.
    pub code: Seq<Instruction>,
    /// The procedures, prepared for inlining.
    pub procedures: Seq<BuilderModel>,
    /// The symbol table, the memory cursor and what is known of the variables.
    pub state: ContextModel,
    /// The commands of the main block.
    pub commands: Seq<CommandModel>,
    /// Whether the variables of the main block fit in the address space.
    pub fits: bool,
}

impl AssemblerModel {
    /// The code generator for `program`, before any code is made: the
    /// procedures are prepared, and the variables of the main block have
    /// their memory, one behind the other from address 0 on in the order of
    /// their declaration, as far as they fit in the address space.
    pub open spec fn initial(program: ProgramModel) -> AssemblerModel {
        let declarations = listed(program.declarations);
        let laid = ContextModel::initial().laid_out(declarations, None, declarations.len());
        AssemblerModel {
            code: Seq::empty(),
            procedures: match program.procedures {
                Some(list) => prepared_all(list),
                None => Seq::empty(),
            },
            state: ContextModel::initial().laid_out_at_most(
                declarations,
                None,
                declarations.len(),
            ),
            commands: program.commands,
            fits: laid is Some,
        }
    }

    /// No jump of the code leaves it, the code fits under the limit, every
    /// region lies below the cursor, and no two procedures have the same
    /// name.
    pub open spec fn well_formed(self) -> bool {
        &&& closed(self.code)
        &&& width(self.code) <= CODE_LIMIT
        &&& self.state.valid()
        &&& distinct_names(self.procedures)
    }

    /// What compiling the main block gives: the state it ends in and, if all
    /// goes well, the code made so far followed by the code of the main block
    /// and `HALT`.
    pub open spec fn main_outcome(self) -> Outcome {
        if !self.fits {
            exhausted(self.state)
        } else {
            let body = commands_outcome(
                self.procedures,
                all_idle(self.procedures.len()),
                self.state,
                self.commands,
                self.commands.len(),
            );
            match body.result {
                Err(_) => body,
                Ok(code) => limited(body.state, self.code + code + seq![Instruction::Halt]),
            }
        }
    }

    /// Whether the main block can be compiled within the limits of the
    /// machine: the variables fit in the 64-bit address space, and no block
    /// of code is longer than a jump can span.
    pub open spec fn within_capacity(self) -> bool {
        self.main_outcome().result != Err::<Seq<Instruction>, StopModel>(StopModel::Exhausted)
    }
}

/// The code generator.
#[derive(Debug)]
pub struct Assembler {
    pseudo_assembly: Vec<Instruction>,
    procedures: Vec<ProcedureBuilder>,
    context: Context,
    main: Main,
    fits: bool,
}

impl View for Assembler {
    type V = AssemblerModel;

    closed spec fn view(&self) -> AssemblerModel {
        AssemblerModel {
            code: self.pseudo_assembly@,
            procedures: builders_model(self.procedures@),
            state: self.context@,
            commands: commands_model(self.main.1@),
            fits: self.fits,
        }
    }
}

/// The first procedure whose name an earlier procedure has already.
fn find_duplicate(procedures: &Vec<Procedure>) -> (found: Option<usize>)
    ensures
        match found {
            Some(k) => k < procedures.len() && first_duplicate(
                procedures_model(procedures@),
                procedures.len() as nat,
            ) == Some(procedure_model(procedures@[k as int]).name),
            None => first_duplicate(procedures_model(procedures@), procedures.len() as nat)
                is None,
        },
{
    let ghost model = procedures_model(procedures@);
    let mut i: usize = 0;
    while i < procedures.len()
        invariant
            i <= procedures.len(),
            model == procedures_model(procedures@),
            first_duplicate(model, i as nat) is None,
        decreases procedures.len() - i,
    {
        let name = &procedures[i].0.0.0;
        let mut j: usize = 0;
        let mut seen = false;
        while j < i
            invariant
                j <= i,
                i < procedures.len(),
                model == procedures_model(procedures@),
                name@ == model[i as int].name.0,
                seen == named_before(model, name@, j as int),
            decreases i - j,
        {
            if procedures[j].0.0.0 == *name {
                seen = true;
                proof {
                    assert(model[j as int].name.0 == name@);
                }
            }
            j += 1;
        }
        if seen {
            proof {
                lemma_duplicate_stays(model, (i + 1) as nat, procedures.len() as nat);
            }
            return Some(i);
        }
        i += 1;
    }
    None
}

/// A duplicate among the first procedures is the first duplicate of all.
proof fn lemma_duplicate_stays(procedures: Seq<ProcedureModel>, count: nat, later: nat)
    requires
        count <= later <= procedures.len(),
        first_duplicate(procedures, count) is Some,
    ensures
        first_duplicate(procedures, later) == first_duplicate(procedures, count),
    decreases later,
{
    if later > count {
        lemma_duplicate_stays(procedures, count, (later - 1) as nat);
    }
}

/// Without a duplicate, no two procedures have the same name.
proof fn lemma_no_duplicate(procedures: Seq<ProcedureModel>, count: nat)
    requires
        count <= procedures.len(),
        first_duplicate(procedures, count) is None,
    ensures
        forall|i: int, j: int|
            0 <= i < j < count ==> (#[trigger] procedures[i]).name.0 != (
            #[trigger] procedures[j]).name.0,
    decreases count,
{
    if count > 0 {
        lemma_no_duplicate(procedures, (count - 1) as nat);
        assert forall|i: int, j: int| 0 <= i < j < count implies (#[trigger] procedures[i]).name.0
            != (#[trigger] procedures[j]).name.0 by {
            if j == count - 1 {
                assert(!named_before(procedures, procedures[count - 1].name.0, count - 1));
            }
        }
    }
}

/// Prepares every procedure for inlining, in the order of the list.
fn prepare_all(list: Vec<Procedure>) -> (procedures: Vec<ProcedureBuilder>)
    ensures
        builders_model(procedures@) == prepared_all(procedures_model(list@)),
{
    let mut list = list;
    let ghost given = list@;
    let mut reversed: Vec<ProcedureBuilder> = Vec::new();
    loop
        invariant
            list.len() + reversed.len() == given.len(),
            list@ == given.take(list.len() as int),
            forall|j: int|
                0 <= j < reversed.len() ==> (#[trigger] reversed@[j])@ == prepared(
                    procedure_model(given[given.len() - 1 - j]),
                ),
        ensures
            list.len() == 0,
        decreases list.len(),
    {
        match list.pop() {
            Some(procedure) => {
                reversed.push(ProcedureBuilder::new(procedure));
            },
            None => {
                break ;
            },
        }
    }
    let ghost backwards = reversed@;
    let mut procedures: Vec<ProcedureBuilder> = Vec::new();
    loop
        invariant
            backwards.len() == given.len(),
            reversed.len() + procedures.len() == given.len(),
            reversed@ == backwards.take(reversed.len() as int),
            forall|j: int|
                0 <= j < backwards.len() ==> (#[trigger] backwards[j])@ == prepared(
                    procedure_model(given[given.len() - 1 - j]),
                ),
            forall|j: int|
                0 <= j < procedures.len() ==> (#[trigger] procedures@[j])@ == prepared(
                    procedure_model(given[j]),
                ),
        ensures
            reversed.len() == 0,
        decreases reversed.len(),
    {
        match reversed.pop() {
            Some(builder) => {
                procedures.push(builder);
            },
            None => {
                break ;
            },
        }
    }
    proof {
        assert(builders_model(procedures@) =~= prepared_all(procedures_model(given)));
    }
    procedures
}

impl Assembler {
    /// Every invariant of the code generator holds.
    pub open spec fn wf(&self) -> bool {
        self@.well_formed()
    }

    /// Sets the code generator up for `ast`: prepares the procedures and gives
    /// the variables of the main block their memory. A program in which two
    /// procedures have the same name is rejected, with the name and place of
    /// the second of the first such pair.
    pub fn new(ast: Program) -> (result: Result<Assembler, CompilerError>)
        ensures
            match first_duplicate(
                listed_procedures(program_model(ast)),
                listed_procedures(program_model(ast)).len(),
            ) {
                Some(name) => result is Err && result->Err_0@
                    == ErrorModel::DuplicateProcedureDeclaration(name.0, name.1),
                None => result is Ok && result->Ok_0@ == AssemblerModel::initial(
                    program_model(ast),
                ) && result->Ok_0.wf(),
            },
    {
        let (procedures_ast, main) = ast;
        let procedures = match procedures_ast {
            Some(list) => {
                match find_duplicate(&list) {
                    Some(k) => {
                        return Err(
                            CompilerError::DuplicateProcedureDeclaration(
                                list[k].0.0.0.clone(),
                                list[k].0.0.1,
                            ),
                        );
                    },
                    None => {},
                }
                proof {
                    lemma_no_duplicate(procedures_model(list@), list.len() as nat);
                }
                prepare_all(list)
            },
            None => Vec::new(),
        };
        let mut context = Context::new();
        let fits = lay_out(&mut context, &main.0, None);
        let pseudo_assembly: Vec<Instruction> = Vec::new();
        proof {
            lemma_bounded_plain(pseudo_assembly@, 0, 0);
        }
        let assembler = Assembler { pseudo_assembly, procedures, context, main, fits };
        proof {
            let model = AssemblerModel::initial(program_model(ast));
            assert(assembler@.procedures =~= model.procedures);
        }
        Ok(assembler)
    }

    /// The text of the assembly: one line for every instruction, each jump
    /// with the number of the line that it goes to.
    pub fn assemble(&self) -> (text: String)
        requires
            self.wf(),
        ensures
            text@ == program_text(self@.code),
    {
        let lines = resolve(&self.pseudo_assembly);
        render(&lines)
    }

    /// Compiles the main block and ends the program with `HALT`.
    pub fn construct(&mut self) -> (result: Result<(), CompilerError>)
        requires
            old(self).wf(),
            old(self)@.within_capacity(),
        ensures
            final(self).wf(),
            constructed(old(self)@, final(self)@, Some(result)),
    {
        match self.construct_main() {
            Ok(_) => {
                proof {
                    lemma_halt_closed(self.pseudo_assembly@);
                }
                self.pseudo_assembly.push(Instruction::Halt);
                Ok(())
            },
            Err(Stop::Fault(error)) => Err(error),
            Err(Stop::Exhausted) => vstd::pervasive::unreached(),
        }
    }

    /// Compiles the main block and ends the program with `HALT`, unless the
    /// program is larger than the machine can hold: then the result is `None`
    /// and no code is added.
    pub fn try_construct(&mut self) -> (result: Option<Result<(), CompilerError>>)
        requires
            old(self).wf(),
        ensures
            final(self).wf(),
            constructed(old(self)@, final(self)@, result),
    {
        match self.construct_main() {
            Ok(_) => {
                proof {
                    lemma_halt_closed(self.pseudo_assembly@);
                }
                self.pseudo_assembly.push(Instruction::Halt);
                Some(Ok(()))
            },
            Err(Stop::Fault(error)) => Some(Err(error)),
            Err(Stop::Exhausted) => None,
        }
    }

    /// Compiles the commands of the main block and puts their code behind
    /// the code made so far, if a `HALT` still fits behind it.
    fn construct_main(&mut self) -> (result: Result<(), Stop>)
        requires
            old(self).wf(),
        ensures
            final(self)@.procedures == old(self)@.procedures,
            final(self)@.commands == old(self)@.commands,
            final(self)@.fits == old(self)@.fits,
            final(self)@.state.valid(),
            closed(final(self)@.code),
            match result {
                Ok(_) => {
                    &&& old(self)@.main_outcome().result == Ok::<Seq<Instruction>, StopModel>(
                        final(self)@.code + seq![Instruction::Halt],
                    )
                    &&& old(self)@.main_outcome().state == final(self)@.state
                    &&& width(final(self)@.code) + 1 <= CODE_LIMIT
                },
                Err(stop) => {
                    &&& old(self)@.main_outcome().result == Err::<Seq<Instruction>, StopModel>(
                        stop@,
                    )
                    &&& final(self)@.code == old(self)@.code
                    &&& old(self)@.main_outcome().state == final(self)@.state
                },
            },
    {
        if !self.fits {
            return Err(Stop::Exhausted);
        }
        let mut active: Vec<bool> = Vec::new();
        let mut i: usize = 0;
        while i < self.procedures.len()
            invariant
                i <= self.procedures.len(),
                active@ == all_idle(i as nat),
                *self == *old(self),
            decreases self.procedures.len() - i,
        {
            active.push(false);
            i += 1;
            proof {
                assert(active@ =~= all_idle(i as nat));
            }
        }
        let constructed = construct_commands(
            &self.procedures,
            &mut active,
            &mut self.context,
            &self.main.1,
        );
        let body = match constructed {
            Ok(code) => code,
            Err(stop) => {
                return Err(stop);
            },
        };
        let length = total_width(&self.pseudo_assembly);
        let more = total_width(&body);
        proof {
            lemma_closed_concat(self.pseudo_assembly@, body@);
            lemma_width_push(
                self.pseudo_assembly@ + body@,
                Instruction::Halt,
            );
            assert((self.pseudo_assembly@ + body@).push(Instruction::Halt) =~= self.pseudo_assembly@
                + body@ + seq![Instruction::Halt]);
        }
        if more >= CODE_LIMIT - length {
            return Err(Stop::Exhausted);
        }
        join(&mut self.pseudo_assembly, body);
        Ok(())
    }

    /// The pseudo-instructions made so far.
    pub fn instructions(&self) -> (code: &Vec<Instruction>)
        ensures
            code@ == self@.code,
    {
        &self.pseudo_assembly
    }

    /// The names, as the user wrote them, that were used before they had a
    /// value, in the order in which this was noticed.
    pub fn warnings(&self) -> (warnings: &Vec<String>)
        ensures
            texts(warnings@) == self@.state.warnings,
    {
        self.context.warnings()
    }
}

/// How a run of the code generator ends. The procedures and the main block
/// stay as they are, and the state is that in which the run ended. If all
/// goes well, the code is the code made so far, the code of the main block and
/// `HALT`. If the program is rejected, the code stays as it was. If the
/// program is larger than the machine can hold, the result is `None` and the
/// code stays as it was.
pub open spec fn constructed(
    before: AssemblerModel,
    after: AssemblerModel,
    result: Option<Result<(), CompilerError>>,
) -> bool {
    let outcome = before.main_outcome();
    &&& after.procedures == before.procedures
    &&& after.commands == before.commands
    &&& after.fits == before.fits
    &&& match outcome.result {
        Ok(code) => result == Some(Ok::<(), CompilerError>(())) && after.code == code
            && after.state == outcome.state,
        Err(StopModel::Fault(error)) => {
            &&& result matches Some(Err(found))
            &&& found@ == error
            &&& after.code == before.code
            &&& after.state == outcome.state
        },
        Err(StopModel::Exhausted) => result is None && after.code == before.code && after.state
            == outcome.state,
    }
}

/// Code that no jump leaves stays so with `HALT` behind it.
proof fn lemma_halt_closed(code: Seq<Instruction>)
    requires
        closed(code),
    ensures
        closed(code.push(Instruction::Halt)),
        code.push(Instruction::Halt) == code + seq![Instruction::Halt],
        width(code.push(Instruction::Halt)) == width(code) + 1,
{
    let halt = seq![Instruction::Halt];
    lemma_bounded_plain(halt, 0, 0);
    lemma_closed_concat(code, halt);
    assert(code.push(Instruction::Halt) =~= code + halt);
}

/// The procedures of a program, as a list.
pub open spec fn listed_procedures(program: ProgramModel) -> Seq<ProcedureModel> {
    match program.procedures {
        Some(list) => list,
        None => Seq::empty(),
    }
}

} // verus!
