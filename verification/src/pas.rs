//! A survey of the variables that a program declares: for the main block and
//! for every procedure, which names are scalars and which are arrays.
use crate::ast::{
    declarations_model, formals_model, optional_declarations_model, procedure_model,
    procedures_model, program_model, ArgumentModel, ArgumentsDeclarationVariant, DeclarationModel,
    DeclarationVariant, Main, Procedure, ProcedureModel, Program, ProgramModel,
};
use crate::instruction::Instruction;
use crate::memory::Table;
use vstd::prelude::*;

verus! {

/// The shape of a variable: a scalar, or an array with its length where the
/// declaration gives one. An array that is a formal parameter has none.
#[derive(Debug, PartialEq, Eq, Clone, Copy, Structural)]
pub enum VariableVariant {
    Atomic,
    Table(Option<u64>),
}

/// The shapes of the variables of a list of declarations.
pub type Shapes = Map<Seq<char>, VariableVariant>;

/// The name and the shape that a declaration declares.
pub open spec fn declared_shape(declaration: DeclarationModel) -> (Seq<char>, VariableVariant) {
    match declaration {
        DeclarationModel::Base(name) => (name.0, VariableVariant::Atomic),
        DeclarationModel::NumIndexed(name, size) => (name.0, VariableVariant::Table(Some(size))),
    }
}

/// The name and the shape of a formal parameter.
pub open spec fn formal_shape(formal: ArgumentModel) -> (Seq<char>, VariableVariant) {
    match formal {
        ArgumentModel::Base(name) => (name.0, VariableVariant::Atomic),
        ArgumentModel::Table(name) => (name.0, VariableVariant::Table(None)),
    }
}

/// The shapes of the first `count` declarations; a later declaration of a
/// name replaces an earlier one.
pub open spec fn declared_shapes(declarations: Seq<DeclarationModel>, count: nat) -> Shapes
    decreases count,
{
    if count == 0 || count > declarations.len() {
        Map::empty()
    } else {
        let shape = declared_shape(declarations[count - 1]);
        declared_shapes(declarations, (count - 1) as nat).insert(shape.0, shape.1)
    }
}

/// The shapes of the first `count` formal parameters.
pub open spec fn formal_shapes(formals: Seq<ArgumentModel>, count: nat) -> Shapes
    decreases count,
{
    if count == 0 || count > formals.len() {
        Map::empty()
    } else {
        let shape = formal_shape(formals[count - 1]);
        formal_shapes(formals, (count - 1) as nat).insert(shape.0, shape.1)
    }
}

/// The shapes of the declarations of a block, if it has any.
pub open spec fn optional_shapes(declarations: Option<Seq<DeclarationModel>>) -> Shapes {
    match declarations {
        Some(list) => declared_shapes(list, list.len()),
        None => Map::empty(),
    }
}

/// The variables of a procedure: the formal parameters and the local
/// declarations.
pub struct ProcedureShapes {
    pub outer: Shapes,
    pub inner: Shapes,
}

/// The variables of a procedure.
pub open spec fn procedure_shapes(procedure: ProcedureModel) -> ProcedureShapes {
    ProcedureShapes {
        outer: formal_shapes(procedure.formals, procedure.formals.len()),
        inner: optional_shapes(procedure.locals),
    }
}

/// The variables of the first `count` procedures, by the name of the
/// procedure; a later procedure of a name replaces an earlier one.
pub open spec fn surveyed(procedures: Seq<ProcedureModel>, count: nat) -> Map<
    Seq<char>,
    ProcedureShapes,
>
    decreases count,
{
    if count == 0 || count > procedures.len() {
        Map::empty()
    } else {
        surveyed(procedures, (count - 1) as nat).insert(
            procedures[count - 1].name.0,
            procedure_shapes(procedures[count - 1]),
        )
    }
}

/// The variables of a procedure.
#[derive(Debug)]
pub struct ProcedureAssembler {
    outer_vars: Table<VariableVariant>,
    inner_vars: Table<VariableVariant>,
}

impl View for ProcedureAssembler {
    type V = ProcedureShapes;

    closed spec fn view(&self) -> ProcedureShapes {
        ProcedureShapes { outer: self.outer_vars@, inner: self.inner_vars@ }
    }
}

/// Enters the shapes of a list of declarations.
fn survey_declarations(declarations: &Option<Vec<DeclarationVariant>>) -> (table: Table<
    VariableVariant,
>)
    ensures
        table@ == optional_shapes(optional_declarations_model(*declarations)),
{
    let mut table: Table<VariableVariant> = Table::new();
    match declarations {
        None => {},
        Some(list) => {
            let ghost model = declarations_model(list@);
            let mut i: usize = 0;
            while i < list.len()
                invariant
                    i <= list.len(),
                    model == declarations_model(list@),
                    table@ == declared_shapes(model, i as nat),
                decreases list.len() - i,
            {
                proof {
                    assert(model[i as int] == list@[i as int]@);
                }
                match &list[i] {
                    DeclarationVariant::Base(id) => {
                        table.insert(id.0.clone(), VariableVariant::Atomic);
                    },
                    DeclarationVariant::NumIndexed(id, size) => {
                        table.insert(id.0.clone(), VariableVariant::Table(Some(*size)));
                    },
                }
                i += 1;
            }
        },
    }
    table
}

impl ProcedureAssembler {
    /// The formal parameters of the procedure with their shapes.
    pub fn new(proc: &Procedure) -> (survey: ProcedureAssembler)
        ensures
            survey@ == procedure_shapes(procedure_model(*proc)),
    {
        let mut outer_vars: Table<VariableVariant> = Table::new();
        let formals = &proc.0.1;
        let ghost model = formals_model(formals@);
        let mut i: usize = 0;
        while i < formals.len()
            invariant
                i <= formals.len(),
                model == formals_model(formals@),
                outer_vars@ == formal_shapes(model, i as nat),
            decreases formals.len() - i,
        {
            proof {
                assert(model[i as int] == formals@[i as int]@);
            }
            match &formals[i] {
                ArgumentsDeclarationVariant::Base(id) => {
                    outer_vars.insert(id.0.clone(), VariableVariant::Atomic);
                },
                ArgumentsDeclarationVariant::Table(id) => {
                    outer_vars.insert(id.0.clone(), VariableVariant::Table(None));
                },
            }
            i += 1;
        }
        let inner_vars = survey_declarations(&proc.1);
        ProcedureAssembler { outer_vars, inner_vars }
    }

    /// The shape of the formal parameter `name`, if there is one.
    pub fn outer(&self, name: &String) -> (shape: Option<VariableVariant>)
        ensures
            shape == shape_in(self@.outer, name@),
    {
        match self.outer_vars.get(name) {
            Some(shape) => Some(*shape),
            None => None,
        }
    }

    /// The shape of the local variable `name`, if there is one.
    pub fn inner(&self, name: &String) -> (shape: Option<VariableVariant>)
        ensures
            shape == shape_in(self@.inner, name@),
    {
        match self.inner_vars.get(name) {
            Some(shape) => Some(*shape),
            None => None,
        }
    }
}

/// The shape that `name` has in `shapes`, if it has one.
pub open spec fn shape_in(shapes: Shapes, name: Seq<char>) -> Option<VariableVariant> {
    if shapes.dom().contains(name) {
        Some(shapes[name])
    } else {
        None
    }
}

/// The variables of the main block.
#[derive(Debug)]
pub struct MainAssembler {
    variables: Table<VariableVariant>,
}

impl View for MainAssembler {
    type V = Shapes;

    closed spec fn view(&self) -> Shapes {
        self.variables@
    }
}

impl MainAssembler {
    /// The declarations of the main block with their shapes.
    pub fn new(main: &Main) -> (survey: MainAssembler)
        ensures
            survey@ == optional_shapes(optional_declarations_model(main.0)),
    {
        MainAssembler { variables: survey_declarations(&main.0) }
    }

    /// The shape of the variable `name`, if it is declared.
    pub fn variable(&self, name: &String) -> (shape: Option<VariableVariant>)
        ensures
            shape == shape_in(self@, name@),
    {
        match self.variables.get(name) {
            Some(shape) => Some(*shape),
            None => None,
        }
    }
}

/// The model of the survey of a program.
pub struct SurveyModel {
    /// The pseudo-instructions; the survey makes none.
    pub code: Seq<Instruction>,
    /// The variables of every procedure, by the name of the procedure.
    pub procedures: Map<Seq<char>, ProcedureShapes>,
    /// The variables of the main block.
    pub main: Shapes,
}

/// The survey of a program.
pub open spec fn survey_of(program: ProgramModel) -> SurveyModel {
    SurveyModel {
        code: Seq::empty(),
        procedures: match program.procedures {
            Some(list) => surveyed(list, list.len()),
            None => Map::empty(),
        },
        main: optional_shapes(program.declarations),
    }
}

/// The variables that a program declares.
#[derive(Debug)]
pub struct PseudoAssembler {
    pseudo_assembly: Vec<Instruction>,
    procedures: Table<ProcedureAssembler>,
    main: MainAssembler,
}

/// The models of the surveys of procedures.
pub open spec fn shapes_of(procedures: Map<Seq<char>, ProcedureAssembler>) -> Map<
    Seq<char>,
    ProcedureShapes,
> {
    procedures.map_values(|survey: ProcedureAssembler| survey@)
}

impl View for PseudoAssembler {
    type V = SurveyModel;

    closed spec fn view(&self) -> SurveyModel {
        SurveyModel {
            code: self.pseudo_assembly@,
            procedures: shapes_of(self.procedures@),
            main: self.main@,
        }
    }
}

impl PseudoAssembler {
    /// Surveys the variables of `ast`.
    pub fn new(ast: Program) -> (survey: PseudoAssembler)
        ensures
            survey@ == survey_of(program_model(ast)),
    {
        let mut procedures: Table<ProcedureAssembler> = Table::new();
        proof {
            assert(shapes_of(procedures@) =~= Map::<Seq<char>, ProcedureShapes>::empty());
        }
        match &ast.0 {
            None => {},
            Some(list) => {
                let ghost model = procedures_model(list@);
                let mut i: usize = 0;
                while i < list.len()
                    invariant
                        i <= list.len(),
                        model == procedures_model(list@),
                        shapes_of(procedures@) == surveyed(model, i as nat),
                    decreases list.len() - i,
                {
                    let ghost before = procedures@;
                    let survey = ProcedureAssembler::new(&list[i]);
                    procedures.insert(list[i].0.0.0.clone(), survey);
                    proof {
                        assert(model[i as int] == procedure_model(list@[i as int]));
                        assert(shapes_of(before.insert(list@[i as int].0.0.0@, survey))
                            =~= shapes_of(before).insert(list@[i as int].0.0.0@, survey@));
                    }
                    i += 1;
                }
            },
        }
        let main = MainAssembler::new(&ast.1);
        PseudoAssembler { pseudo_assembly: Vec::new(), procedures, main }
    }

    /// The survey of the main block.
    pub fn main(&self) -> (main: &MainAssembler)
        ensures
            main@ == self@.main,
    {
        &self.main
    }

    /// The survey of the procedure `name`, if the program has one.
    pub fn procedure(&self, name: &String) -> (survey: Option<&ProcedureAssembler>)
        ensures
            match survey {
                Some(found) => self@.procedures.dom().contains(name@) && self@.procedures[name@]
                    == found@,
                None => !self@.procedures.dom().contains(name@),
            },
    {
        self.procedures.get(name)
    }
}

} // verus!
