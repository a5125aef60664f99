//! The abstract syntax tree that the code generator consumes, and its
//! mathematical model.
//!
//! Every name carries the byte offset of its occurrence in the source text,
//! which is used for diagnostics only. The model of a tree is the same tree
//! with each name as a sequence of characters and each list as a sequence.
use vstd::prelude::*;

verus! {

/// A number of the source text.
pub type Num = u64;

/// A name with the byte offset at which it occurs.
pub type Pidentifier = (String, usize);

/// A reference to a variable: a scalar, an array element with a literal index,
/// or an array element with a variable as the index.
#[derive(Debug)]
pub enum Identifier {
    Base(Pidentifier),
    NumIndexed(Pidentifier, Num),
    PidIndexed(Pidentifier, Pidentifier),
}

/// A literal or the content of a variable.
#[derive(Debug)]
pub enum Value {
    Num(Num),
    Id(Identifier),
}

/// A comparison of two values.
#[derive(Debug)]
pub enum Condition {
    Equal(Value, Value),
    NotEqual(Value, Value),
    Greater(Value, Value),
    Lower(Value, Value),
    GreaterOrEqual(Value, Value),
    LowerOrEqual(Value, Value),
}

/// A value, or one arithmetic operation on two values.
#[derive(Debug)]
pub enum Expression {
    Val(Value),
    Add(Value, Value),
    Substract(Value, Value),
    Multiply(Value, Value),
    Divide(Value, Value),
    Modulo(Value, Value),
}

/// The arguments of a call: names of variables of the caller.
pub type Arguments = Vec<Pidentifier>;

/// A formal parameter: a scalar or an array, both passed by reference.
#[derive(Debug)]
pub enum ArgumentsDeclarationVariant {
    Base(Pidentifier),
    Table(Pidentifier),
}

/// The formal parameters of a procedure.
pub type ArgumentsDeclaration = Vec<ArgumentsDeclarationVariant>;

/// A declaration: a scalar, or an array of a fixed number of words.
#[derive(Debug)]
pub enum DeclarationVariant {
    Base(Pidentifier),
    NumIndexed(Pidentifier, Num),
}

/// The declarations of the main block or of a procedure.
pub type Declarations = Vec<DeclarationVariant>;

/// A call: the name of the procedure and the arguments.
pub type ProcedureCall = (Pidentifier, Arguments);

/// The head of a procedure: its name and its formal parameters.
pub type ProcedureHead = (Pidentifier, ArgumentsDeclaration);

/// A command.
#[derive(Debug)]
pub enum Command {
    Assign(Identifier, Expression),
    If(Condition, Commands, Option<Commands>),
    While(Condition, Commands),
    Repeat(Commands, Condition),
    ProcCall(ProcedureCall),
    Read(Identifier),
    Write(Value),
}

/// A list of commands.
pub type Commands = Vec<Command>;

/// The main block: its declarations and its commands.
pub type Main = (Option<Declarations>, Commands);

/// A procedure: its head, its local declarations and its commands.
pub type Procedure = (ProcedureHead, Option<Declarations>, Commands);

/// The procedures of a program.
pub type Procedures = Vec<Procedure>;

/// A program: its procedures and its main block.
pub type Program = (Option<Procedures>, Main);

/// The model of a name: its characters and the byte offset of the occurrence.
pub type NameModel = (Seq<char>, usize);

/// The model of an identifier.
pub enum IdentifierModel {
    Base(NameModel),
    NumIndexed(NameModel, Num),
    PidIndexed(NameModel, NameModel),
}

/// The model of a value.
pub enum ValueModel {
    Num(Num),
    Id(IdentifierModel),
}

/// The model of a condition.
pub enum ConditionModel {
    Equal(ValueModel, ValueModel),
    NotEqual(ValueModel, ValueModel),
    Greater(ValueModel, ValueModel),
    Lower(ValueModel, ValueModel),
    GreaterOrEqual(ValueModel, ValueModel),
    LowerOrEqual(ValueModel, ValueModel),
}

/// The model of an expression.
pub enum ExpressionModel {
    Val(ValueModel),
    Add(ValueModel, ValueModel),
    Substract(ValueModel, ValueModel),
    Multiply(ValueModel, ValueModel),
    Divide(ValueModel, ValueModel),
    Modulo(ValueModel, ValueModel),
}

/// The model of a formal parameter.
pub enum ArgumentModel {
    Base(NameModel),
    Table(NameModel),
}

/// The model of a declaration.
pub enum DeclarationModel {
    Base(NameModel),
    NumIndexed(NameModel, Num),
}

/// The model of a command.
pub enum CommandModel {
    Assign(IdentifierModel, ExpressionModel),
    If(ConditionModel, Seq<CommandModel>, Option<Seq<CommandModel>>),
    While(ConditionModel, Seq<CommandModel>),
    Repeat(Seq<CommandModel>, ConditionModel),
    ProcCall(NameModel, Seq<NameModel>),
    Read(IdentifierModel),
    Write(ValueModel),
}

/// The model of a procedure.
pub struct ProcedureModel {
    pub name: NameModel,
    pub formals: Seq<ArgumentModel>,
    pub locals: Option<Seq<DeclarationModel>>,
    pub commands: Seq<CommandModel>,
}

/// The model of a program.
pub struct ProgramModel {
    pub procedures: Option<Seq<ProcedureModel>>,
    pub declarations: Option<Seq<DeclarationModel>>,
    pub commands: Seq<CommandModel>,
}

/// The model of a name.
pub open spec fn name_model(id: Pidentifier) -> NameModel {
    (id.0@, id.1)
}

/// The models of a list of names.
pub open spec fn names_model(ids: Seq<Pidentifier>) -> Seq<NameModel> {
    Seq::new(ids.len(), |i: int| name_model(ids[i]))
}

impl View for Identifier {
    type V = IdentifierModel;

    open spec fn view(&self) -> IdentifierModel {
        match self {
            Identifier::Base(id) => IdentifierModel::Base(name_model(*id)),
            Identifier::NumIndexed(id, num) => IdentifierModel::NumIndexed(name_model(*id), *num),
            Identifier::PidIndexed(id, index) => IdentifierModel::PidIndexed(
                name_model(*id),
                name_model(*index),
            ),
        }
    }
}

impl View for Value {
    type V = ValueModel;

    open spec fn view(&self) -> ValueModel {
        match self {
            Value::Num(num) => ValueModel::Num(*num),
            Value::Id(id) => ValueModel::Id(id@),
        }
    }
}

impl View for Condition {
    type V = ConditionModel;

    open spec fn view(&self) -> ConditionModel {
        match self {
            Condition::Equal(a, b) => ConditionModel::Equal(a@, b@),
            Condition::NotEqual(a, b) => ConditionModel::NotEqual(a@, b@),
            Condition::Greater(a, b) => ConditionModel::Greater(a@, b@),
            Condition::Lower(a, b) => ConditionModel::Lower(a@, b@),
            Condition::GreaterOrEqual(a, b) => ConditionModel::GreaterOrEqual(a@, b@),
            Condition::LowerOrEqual(a, b) => ConditionModel::LowerOrEqual(a@, b@),
        }
    }
}

impl View for Expression {
    type V = ExpressionModel;

    open spec fn view(&self) -> ExpressionModel {
        match self {
            Expression::Val(a) => ExpressionModel::Val(a@),
            Expression::Add(a, b) => ExpressionModel::Add(a@, b@),
            Expression::Substract(a, b) => ExpressionModel::Substract(a@, b@),
            Expression::Multiply(a, b) => ExpressionModel::Multiply(a@, b@),
            Expression::Divide(a, b) => ExpressionModel::Divide(a@, b@),
            Expression::Modulo(a, b) => ExpressionModel::Modulo(a@, b@),
        }
    }
}

impl View for ArgumentsDeclarationVariant {
    type V = ArgumentModel;

    open spec fn view(&self) -> ArgumentModel {
        match self {
            ArgumentsDeclarationVariant::Base(id) => ArgumentModel::Base(name_model(*id)),
            ArgumentsDeclarationVariant::Table(id) => ArgumentModel::Table(name_model(*id)),
        }
    }
}

impl View for DeclarationVariant {
    type V = DeclarationModel;

    open spec fn view(&self) -> DeclarationModel {
        match self {
            DeclarationVariant::Base(id) => DeclarationModel::Base(name_model(*id)),
            DeclarationVariant::NumIndexed(id, size) => DeclarationModel::NumIndexed(
                name_model(*id),
                *size,
            ),
        }
    }
}

/// The models of a list of formal parameters.
pub open spec fn formals_model(formals: Seq<ArgumentsDeclarationVariant>) -> Seq<ArgumentModel> {
    Seq::new(formals.len(), |i: int| formals[i]@)
}

/// The models of a list of declarations.
pub open spec fn declarations_model(declarations: Seq<DeclarationVariant>) -> Seq<
    DeclarationModel,
> {
    Seq::new(declarations.len(), |i: int| declarations[i]@)
}

/// The models of the declarations of a block, if it has any.
pub open spec fn optional_declarations_model(declarations: Option<Declarations>) -> Option<
    Seq<DeclarationModel>,
> {
    match declarations {
        Some(list) => Some(declarations_model(list@)),
        None => None,
    }
}

/// The model of a command.
pub open spec fn command_model(command: Command) -> CommandModel
    decreases command,
{
    match command {
        Command::Assign(id, expression) => CommandModel::Assign(id@, expression@),
        Command::If(condition, commands, otherwise) => CommandModel::If(
            condition@,
            commands_model(commands@),
            match otherwise {
                Some(list) => Some(commands_model(list@)),
                None => None,
            },
        ),
        Command::While(condition, commands) => CommandModel::While(
            condition@,
            commands_model(commands@),
        ),
        Command::Repeat(commands, condition) => CommandModel::Repeat(
            commands_model(commands@),
            condition@,
        ),
        Command::ProcCall(call) => CommandModel::ProcCall(name_model(call.0), names_model(call.1@)),
        Command::Read(id) => CommandModel::Read(id@),
        Command::Write(value) => CommandModel::Write(value@),
    }
}

/// The models of a list of commands.
pub open spec fn commands_model(commands: Seq<Command>) -> Seq<CommandModel>
    decreases commands,
{
    Seq::new(
        commands.len(),
        |i: int|
            if 0 <= i < commands.len() {
                command_model(commands[i])
            } else {
                arbitrary()
            },
    )
}

impl View for Command {
    type V = CommandModel;

    open spec fn view(&self) -> CommandModel {
        command_model(*self)
    }
}

/// The model of a procedure.
pub open spec fn procedure_model(procedure: Procedure) -> ProcedureModel {
    ProcedureModel {
        name: name_model(procedure.0.0),
        formals: formals_model(procedure.0.1@),
        locals: optional_declarations_model(procedure.1),
        commands: commands_model(procedure.2@),
    }
}

/// The models of a list of procedures.
pub open spec fn procedures_model(procedures: Seq<Procedure>) -> Seq<ProcedureModel> {
    Seq::new(procedures.len(), |i: int| procedure_model(procedures[i]))
}

/// The model of a program.
pub open spec fn program_model(program: Program) -> ProgramModel {
    ProgramModel {
        procedures: match program.0 {
            Some(list) => Some(procedures_model(list@)),
            None => None,
        },
        declarations: optional_declarations_model(program.1.0),
        commands: commands_model(program.1.1@),
    }
}

} // verus!
