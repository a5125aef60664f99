//! The errors that stop code generation.
use vstd::prelude::*;

verus! {

/// Why a program was rejected. Each error carries the offending name and the
/// byte offset of its occurrence in the source text.
#[derive(Debug, Clone)]
pub enum CompilerError {
    UndeclaredVariable(String, usize),
    UndeclaredProcedure(String, usize),
    IncorrectUseOfVariable(String, usize),
    IndexOutOfBounds(String, usize),
    ArrayUsedAsIndex(String, usize),
    WrongArgumentType(String, usize),
    DuplicateVariableDeclaration(String, usize),
    DuplicateProcedureDeclaration(String, usize),
    RecursiveProcedureCall(String, usize),
    WrongNumberOfArguments(String, usize),
}

/// The model of an error: its kind with the name as a sequence of characters.
pub enum ErrorModel {
    UndeclaredVariable(Seq<char>, usize),
    UndeclaredProcedure(Seq<char>, usize),
    IncorrectUseOfVariable(Seq<char>, usize),
    IndexOutOfBounds(Seq<char>, usize),
    ArrayUsedAsIndex(Seq<char>, usize),
    WrongArgumentType(Seq<char>, usize),
    DuplicateVariableDeclaration(Seq<char>, usize),
    DuplicateProcedureDeclaration(Seq<char>, usize),
    RecursiveProcedureCall(Seq<char>, usize),
    WrongNumberOfArguments(Seq<char>, usize),
}

impl ErrorModel {
    /// The offending name, as the code generator knows it.
    pub open spec fn name(self) -> Seq<char> {
        match self {
            ErrorModel::UndeclaredVariable(name, _) => name,
            ErrorModel::UndeclaredProcedure(name, _) => name,
            ErrorModel::IncorrectUseOfVariable(name, _) => name,
            ErrorModel::IndexOutOfBounds(name, _) => name,
            ErrorModel::ArrayUsedAsIndex(name, _) => name,
            ErrorModel::WrongArgumentType(name, _) => name,
            ErrorModel::DuplicateVariableDeclaration(name, _) => name,
            ErrorModel::DuplicateProcedureDeclaration(name, _) => name,
            ErrorModel::RecursiveProcedureCall(name, _) => name,
            ErrorModel::WrongNumberOfArguments(name, _) => name,
        }
    }

    /// The byte offset of the offending occurrence.
    pub open spec fn byte(self) -> usize {
        match self {
            ErrorModel::UndeclaredVariable(_, byte) => byte,
            ErrorModel::UndeclaredProcedure(_, byte) => byte,
            ErrorModel::IncorrectUseOfVariable(_, byte) => byte,
            ErrorModel::IndexOutOfBounds(_, byte) => byte,
            ErrorModel::ArrayUsedAsIndex(_, byte) => byte,
            ErrorModel::WrongArgumentType(_, byte) => byte,
            ErrorModel::DuplicateVariableDeclaration(_, byte) => byte,
            ErrorModel::DuplicateProcedureDeclaration(_, byte) => byte,
            ErrorModel::RecursiveProcedureCall(_, byte) => byte,
            ErrorModel::WrongNumberOfArguments(_, byte) => byte,
        }
    }
}

impl View for CompilerError {
    type V = ErrorModel;

    open spec fn view(&self) -> ErrorModel {
        match self {
            CompilerError::UndeclaredVariable(name, byte) => ErrorModel::UndeclaredVariable(
                name@,
                *byte,
            ),
            CompilerError::UndeclaredProcedure(name, byte) => ErrorModel::UndeclaredProcedure(
                name@,
                *byte,
            ),
            CompilerError::IncorrectUseOfVariable(name, byte) => ErrorModel::IncorrectUseOfVariable(
                name@,
                *byte,
            ),
            CompilerError::IndexOutOfBounds(name, byte) => ErrorModel::IndexOutOfBounds(
                name@,
                *byte,
            ),
            CompilerError::ArrayUsedAsIndex(name, byte) => ErrorModel::ArrayUsedAsIndex(
                name@,
                *byte,
            ),
            CompilerError::WrongArgumentType(name, byte) => ErrorModel::WrongArgumentType(
                name@,
                *byte,
            ),
            CompilerError::DuplicateVariableDeclaration(
                name,
                byte,
            ) => ErrorModel::DuplicateVariableDeclaration(name@, *byte),
            CompilerError::DuplicateProcedureDeclaration(
                name,
                byte,
            ) => ErrorModel::DuplicateProcedureDeclaration(name@, *byte),
            CompilerError::RecursiveProcedureCall(name, byte) => ErrorModel::RecursiveProcedureCall(
                name@,
                *byte,
            ),
            CompilerError::WrongNumberOfArguments(name, byte) => ErrorModel::WrongNumberOfArguments(
                name@,
                *byte,
            ),
        }
    }
}

impl CompilerError {
    /// The byte offset of the offending occurrence in the source text.
    pub fn get_byte(&self) -> (byte: usize)
        ensures
            byte == self@.byte(),
    {
        match self {
            CompilerError::UndeclaredVariable(_, line) => *line,
            CompilerError::UndeclaredProcedure(_, line) => *line,
            CompilerError::IncorrectUseOfVariable(_, line) => *line,
            CompilerError::IndexOutOfBounds(_, line) => *line,
            CompilerError::ArrayUsedAsIndex(_, line) => *line,
            CompilerError::WrongArgumentType(_, line) => *line,
            CompilerError::DuplicateVariableDeclaration(_, line) => *line,
            CompilerError::DuplicateProcedureDeclaration(_, line) => *line,
            CompilerError::RecursiveProcedureCall(_, line) => *line,
            CompilerError::WrongNumberOfArguments(_, line) => *line,
        }
    }

    /// The offending name, as the code generator knows it: a name that belongs
    /// to a procedure still carries the procedure's name behind an `@`.
    pub fn get_name(&self) -> (name: &String)
        ensures
            name@ == self@.name(),
    {
        match self {
            CompilerError::UndeclaredVariable(name, _) => name,
            CompilerError::UndeclaredProcedure(name, _) => name,
            CompilerError::IncorrectUseOfVariable(name, _) => name,
            CompilerError::IndexOutOfBounds(name, _) => name,
            CompilerError::ArrayUsedAsIndex(name, _) => name,
            CompilerError::WrongArgumentType(name, _) => name,
            CompilerError::DuplicateVariableDeclaration(name, _) => name,
            CompilerError::DuplicateProcedureDeclaration(name, _) => name,
            CompilerError::RecursiveProcedureCall(name, _) => name,
            CompilerError::WrongNumberOfArguments(name, _) => name,
        }
    }
}

/// Why code generation stopped: the program is wrong, or it is larger than
/// the target machine can hold.
#[derive(Debug)]
pub enum Stop {
    /// The program is rejected with this error.
    Fault(CompilerError),
    /// The variables do not fit in the 64-bit address space, or a block of
    /// code is longer than a jump offset can span.
    Exhausted,
}

/// The model of a reason to stop.
pub enum StopModel {
    Fault(ErrorModel),
    Exhausted,
}

impl View for Stop {
    type V = StopModel;

    open spec fn view(&self) -> StopModel {
        match self {
            Stop::Fault(error) => StopModel::Fault(error@),
            Stop::Exhausted => StopModel::Exhausted,
        }
    }
}

} // verus!
