use imp_codegen::assembler::Assembler;
use imp_codegen::ast::{
    ArgumentsDeclarationVariant, Command, Condition, DeclarationVariant, Expression, Identifier,
    Procedure, Program, Value,
};
use imp_codegen::error::CompilerError;

fn at(text: &str, byte: usize) -> (String, usize) {
    (text.to_string(), byte)
}

fn scalar(text: &str) -> DeclarationVariant {
    DeclarationVariant::Base(at(text, 0))
}

fn array(text: &str, size: u64) -> DeclarationVariant {
    DeclarationVariant::NumIndexed(at(text, 0), size)
}

fn rejected(program: Program) -> CompilerError {
    let mut assembler = Assembler::new(program).expect("no procedure is declared twice");
    let error = assembler.construct().expect_err("the program is rejected");
    assert_eq!(assembler.assemble(), "", "a rejected program leaves no code");
    error
}

fn main_only(declarations: Vec<DeclarationVariant>, commands: Vec<Command>) -> Program {
    (None, (Some(declarations), commands))
}

fn with_procedure(
    procedure: Procedure,
    declarations: Vec<DeclarationVariant>,
    commands: Vec<Command>,
) -> Program {
    (Some(vec![procedure]), (Some(declarations), commands))
}

#[test]
fn undeclared_variable() {
    let program = main_only(
        vec![scalar("x")],
        vec![Command::Write(Value::Id(Identifier::Base(at("y", 31))))],
    );
    let error = rejected(program);
    assert!(matches!(&error, CompilerError::UndeclaredVariable(name, 31) if name == "y"));
    assert_eq!(error.get_byte(), 31);
    assert_eq!(error.get_name(), "y");
}

#[test]
fn undeclared_variable_without_any_declaration() {
    let program: Program = (
        None,
        (None, vec![Command::Read(Identifier::Base(at("y", 3)))]),
    );
    assert!(matches!(rejected(program), CompilerError::UndeclaredVariable(name, 3) if name == "y"));
}

#[test]
fn undeclared_index_variable() {
    let program = main_only(
        vec![array("t", 4)],
        vec![Command::Read(Identifier::PidIndexed(at("t", 5), at("i", 7)))],
    );
    assert!(matches!(rejected(program), CompilerError::UndeclaredVariable(name, 7) if name == "i"));
}

#[test]
fn undeclared_array_with_a_variable_index() {
    let program = main_only(
        vec![scalar("i")],
        vec![Command::Read(Identifier::PidIndexed(at("t", 5), at("i", 7)))],
    );
    assert!(matches!(rejected(program), CompilerError::UndeclaredVariable(name, 5) if name == "t"));
}

#[test]
fn undeclared_procedure() {
    let program = main_only(
        vec![scalar("x")],
        vec![Command::ProcCall((at("q", 12), vec![at("x", 14)]))],
    );
    assert!(matches!(rejected(program), CompilerError::UndeclaredProcedure(name, 12) if name == "q"));
}

#[test]
fn array_used_as_a_scalar() {
    let program = main_only(
        vec![array("t", 4)],
        vec![Command::Write(Value::Id(Identifier::Base(at("t", 9))))],
    );
    assert!(
        matches!(rejected(program), CompilerError::IncorrectUseOfVariable(name, 9) if name == "t")
    );
}

#[test]
fn scalar_indexed_by_a_literal() {
    let program = main_only(
        vec![scalar("x")],
        vec![Command::Read(Identifier::NumIndexed(at("x", 9), 0))],
    );
    assert!(
        matches!(rejected(program), CompilerError::IncorrectUseOfVariable(name, 9) if name == "x")
    );
}

#[test]
fn scalar_indexed_by_a_variable() {
    let program = main_only(
        vec![scalar("x"), scalar("i")],
        vec![Command::Read(Identifier::PidIndexed(at("x", 9), at("i", 11)))],
    );
    assert!(
        matches!(rejected(program), CompilerError::IncorrectUseOfVariable(name, 9) if name == "x")
    );
}

#[test]
fn index_out_of_bounds() {
    let program = main_only(
        vec![array("t", 10)],
        vec![Command::Read(Identifier::NumIndexed(at("t", 21), 10))],
    );
    assert!(matches!(rejected(program), CompilerError::IndexOutOfBounds(name, 21) if name == "t"));
}

#[test]
fn last_index_is_within_bounds() {
    let program = main_only(
        vec![array("t", 10)],
        vec![Command::Read(Identifier::NumIndexed(at("t", 21), 9))],
    );
    let mut assembler = Assembler::new(program).unwrap();
    assert!(assembler.construct().is_ok());
}

#[test]
fn array_used_as_index() {
    let program = main_only(
        vec![array("t", 4), array("u", 4)],
        vec![Command::Read(Identifier::PidIndexed(at("t", 5), at("u", 7)))],
    );
    assert!(matches!(rejected(program), CompilerError::ArrayUsedAsIndex(name, 5) if name == "t"));
}

#[test]
fn wrong_argument_type_scalar_for_array() {
    let procedure: Procedure = (
        (at("p", 10), vec![ArgumentsDeclarationVariant::Table(at("v", 14))]),
        None,
        vec![Command::Write(Value::Num(0))],
    );
    let program = with_procedure(
        procedure,
        vec![scalar("x")],
        vec![Command::ProcCall((at("p", 40), vec![at("x", 42)]))],
    );
    assert!(matches!(rejected(program), CompilerError::WrongArgumentType(name, 14) if name == "v"));
}

#[test]
fn wrong_argument_type_array_for_scalar() {
    let procedure: Procedure = (
        (at("p", 10), vec![ArgumentsDeclarationVariant::Base(at("v", 12))]),
        None,
        vec![Command::Write(Value::Num(0))],
    );
    let program = with_procedure(
        procedure,
        vec![array("t", 2)],
        vec![Command::ProcCall((at("p", 40), vec![at("t", 42)]))],
    );
    assert!(matches!(rejected(program), CompilerError::WrongArgumentType(name, 12) if name == "v"));
}

#[test]
fn undeclared_argument() {
    let procedure: Procedure = (
        (at("p", 10), vec![ArgumentsDeclarationVariant::Base(at("v", 12))]),
        None,
        vec![Command::Write(Value::Num(0))],
    );
    let program = with_procedure(
        procedure,
        vec![scalar("x")],
        vec![Command::ProcCall((at("p", 40), vec![at("y", 42)]))],
    );
    assert!(matches!(rejected(program), CompilerError::UndeclaredVariable(name, 42) if name == "y"));
}

#[test]
fn local_declaration_shadows_a_formal() {
    let procedure: Procedure = (
        (at("p", 10), vec![ArgumentsDeclarationVariant::Base(at("v", 12))]),
        Some(vec![DeclarationVariant::Base(at("w", 20)), DeclarationVariant::Base(at("v", 23))]),
        vec![Command::Write(Value::Num(0))],
    );
    let program = with_procedure(
        procedure,
        vec![scalar("x")],
        vec![Command::ProcCall((at("p", 40), vec![at("x", 42)]))],
    );
    assert!(matches!(
        rejected(program),
        CompilerError::DuplicateVariableDeclaration(name, 23) if name == "v"
    ));
}

#[test]
fn duplicate_procedure_declaration() {
    let first: Procedure = ((at("p", 10), vec![]), None, vec![Command::Write(Value::Num(0))]);
    let second: Procedure = ((at("q", 30), vec![]), None, vec![Command::Write(Value::Num(0))]);
    let third: Procedure = ((at("p", 50), vec![]), None, vec![Command::Write(Value::Num(0))]);
    let fourth: Procedure = ((at("q", 70), vec![]), None, vec![Command::Write(Value::Num(0))]);
    let program: Program = (
        Some(vec![first, second, third, fourth]),
        (None, vec![Command::Write(Value::Num(0))]),
    );
    let error = Assembler::new(program).expect_err("two procedures are called p");
    assert!(matches!(error, CompilerError::DuplicateProcedureDeclaration(name, 50) if name == "p"));
}

#[test]
fn recursive_procedure_call() {
    let procedure: Procedure = (
        (at("p", 10), vec![ArgumentsDeclarationVariant::Base(at("x", 12))]),
        None,
        vec![
            Command::Read(Identifier::Base(at("x", 20))),
            Command::ProcCall((at("p", 30), vec![at("x", 32)])),
        ],
    );
    let program = with_procedure(
        procedure,
        vec![scalar("a")],
        vec![Command::ProcCall((at("p", 60), vec![at("a", 62)]))],
    );
    assert!(
        matches!(rejected(program), CompilerError::RecursiveProcedureCall(name, 30) if name == "p")
    );
}

#[test]
fn recursive_procedure_call_without_arguments() {
    let procedure: Procedure = (
        (at("p", 10), vec![]),
        None,
        vec![Command::ProcCall((at("p", 30), vec![]))],
    );
    let program = with_procedure(
        procedure,
        vec![scalar("a")],
        vec![Command::ProcCall((at("p", 60), vec![]))],
    );
    assert!(
        matches!(rejected(program), CompilerError::RecursiveProcedureCall(name, 30) if name == "p")
    );
}

#[test]
fn recursive_call_inside_a_loop_of_the_body() {
    let procedure: Procedure = (
        (at("p", 10), vec![ArgumentsDeclarationVariant::Base(at("x", 12))]),
        None,
        vec![Command::While(
            Condition::Greater(Value::Id(Identifier::Base(at("x", 20))), Value::Num(0)),
            vec![Command::If(
                Condition::Equal(Value::Num(0), Value::Num(0)),
                vec![Command::Write(Value::Num(0))],
                Some(vec![Command::ProcCall((at("p", 30), vec![at("x", 32)]))]),
            )],
        )],
    );
    let program = with_procedure(
        procedure,
        vec![scalar("a")],
        vec![Command::ProcCall((at("p", 60), vec![at("a", 62)]))],
    );
    assert!(
        matches!(rejected(program), CompilerError::RecursiveProcedureCall(name, 30) if name == "p")
    );
}

#[test]
fn mutually_recursive_procedures() {
    let first: Procedure = (
        (at("p", 10), vec![ArgumentsDeclarationVariant::Base(at("x", 12))]),
        None,
        vec![Command::ProcCall((at("q", 20), vec![at("x", 22)]))],
    );
    let second: Procedure = (
        (at("q", 40), vec![ArgumentsDeclarationVariant::Base(at("y", 42))]),
        None,
        vec![Command::ProcCall((at("p", 50), vec![at("y", 52)]))],
    );
    let program: Program = (
        Some(vec![first, second]),
        (
            Some(vec![scalar("a")]),
            vec![Command::ProcCall((at("p", 80), vec![at("a", 82)]))],
        ),
    );
    assert!(
        matches!(rejected(program), CompilerError::RecursiveProcedureCall(name, 50) if name == "p")
    );
}

#[test]
fn argument_that_belongs_to_the_callee() {
    // Inside procedure `pq` the argument is `x@pq`, which holds the mark `@p`.
    let inner: Procedure = (
        (at("p", 10), vec![ArgumentsDeclarationVariant::Base(at("u", 12))]),
        None,
        vec![Command::Write(Value::Num(0))],
    );
    let outer: Procedure = (
        (at("pq", 30), vec![ArgumentsDeclarationVariant::Base(at("x", 33))]),
        None,
        vec![Command::ProcCall((at("p", 40), vec![at("x", 42)]))],
    );
    let program: Program = (
        Some(vec![inner, outer]),
        (
            Some(vec![scalar("a")]),
            vec![Command::ProcCall((at("pq", 80), vec![at("a", 83)]))],
        ),
    );
    assert!(
        matches!(rejected(program), CompilerError::RecursiveProcedureCall(name, 40) if name == "p")
    );
}

#[test]
fn an_earlier_error_in_a_recursive_body_comes_first() {
    let procedure: Procedure = (
        (at("p", 10), vec![ArgumentsDeclarationVariant::Base(at("x", 12))]),
        None,
        vec![
            Command::Read(Identifier::Base(at("nowhere", 20))),
            Command::ProcCall((at("p", 30), vec![at("x", 32)])),
        ],
    );
    let program = with_procedure(
        procedure,
        vec![scalar("a")],
        vec![Command::ProcCall((at("p", 60), vec![at("a", 62)]))],
    );
    let error = rejected(program);
    assert!(matches!(&error, CompilerError::UndeclaredVariable(name, 20) if name == "nowhere@p"));
    assert_eq!(error.message(4), "ERROR: Undeclared variable `nowhere` line: 4");
}

#[test]
fn wrong_number_of_arguments() {
    let procedure: Procedure = (
        (at("p", 10), vec![ArgumentsDeclarationVariant::Base(at("x", 12))]),
        None,
        vec![Command::Write(Value::Num(0))],
    );
    let program = with_procedure(
        procedure,
        vec![scalar("a"), scalar("b")],
        vec![Command::ProcCall((at("p", 60), vec![at("a", 62), at("b", 64)]))],
    );
    assert!(
        matches!(rejected(program), CompilerError::WrongNumberOfArguments(name, 60) if name == "p")
    );
}

#[test]
fn too_few_arguments() {
    let procedure: Procedure = (
        (at("p", 10), vec![ArgumentsDeclarationVariant::Base(at("x", 12))]),
        None,
        vec![Command::Write(Value::Num(0))],
    );
    let program = with_procedure(
        procedure,
        vec![scalar("a")],
        vec![Command::ProcCall((at("p", 60), vec![]))],
    );
    assert!(
        matches!(rejected(program), CompilerError::WrongNumberOfArguments(name, 60) if name == "p")
    );
}

#[test]
fn the_first_error_in_the_order_of_emission_is_reported() {
    // The branches of a conditional are compiled before its condition.
    let program = main_only(
        vec![scalar("a")],
        vec![Command::If(
            Condition::Equal(Value::Id(Identifier::Base(at("c", 3))), Value::Num(0)),
            vec![Command::Write(Value::Id(Identifier::Base(at("t", 20))))],
            Some(vec![Command::Write(Value::Id(Identifier::Base(at("e", 40))))]),
        )],
    );
    assert!(matches!(rejected(program), CompilerError::UndeclaredVariable(name, 20) if name == "t"));
}

#[test]
fn the_first_operand_in_the_order_of_loading_is_reported() {
    let program = main_only(
        vec![scalar("a")],
        vec![Command::Assign(
            Identifier::Base(at("a", 1)),
            Expression::Substract(
                Value::Id(Identifier::Base(at("left", 10))),
                Value::Id(Identifier::Base(at("right", 20))),
            ),
        )],
    );
    assert!(
        matches!(rejected(program), CompilerError::UndeclaredVariable(name, 20) if name == "right")
    );
}

#[test]
fn error_in_a_procedure_carries_the_qualified_name() {
    let procedure: Procedure = (
        (at("p", 10), vec![]),
        Some(vec![DeclarationVariant::NumIndexed(at("t", 15), 2)]),
        vec![Command::Read(Identifier::NumIndexed(at("t", 25), 2))],
    );
    let program = with_procedure(
        procedure,
        vec![scalar("a")],
        vec![Command::ProcCall((at("p", 60), vec![]))],
    );
    let error = rejected(program);
    assert!(matches!(&error, CompilerError::IndexOutOfBounds(name, 25) if name == "t@p"));
    assert_eq!(error.message(2), "ERROR: Index out of bounds for variable `t` line: 2");
}

#[test]
fn messages_name_the_kind_of_every_error() {
    let cases = [
        (
            CompilerError::UndeclaredVariable("x@p".to_string(), 0),
            "ERROR: Undeclared variable `x` line: 12",
        ),
        (
            CompilerError::UndeclaredProcedure("p".to_string(), 0),
            "ERROR: Undeclared procedure `p` line: 12",
        ),
        (
            CompilerError::IncorrectUseOfVariable("x".to_string(), 0),
            "ERROR: Incorrect use of variable `x` line: 12",
        ),
        (
            CompilerError::IndexOutOfBounds("t@q".to_string(), 0),
            "ERROR: Index out of bounds for variable `t` line: 12",
        ),
        (
            CompilerError::ArrayUsedAsIndex("t".to_string(), 0),
            "ERROR: Array used as index for variable `t` line: 12",
        ),
        (
            CompilerError::WrongArgumentType("v".to_string(), 0),
            "ERROR: Wrong argument type for variable `v` line: 12",
        ),
        (
            CompilerError::DuplicateVariableDeclaration("v".to_string(), 0),
            "ERROR: Duplicate variable declaration for variable `v` line: 12",
        ),
        (
            CompilerError::DuplicateProcedureDeclaration("p".to_string(), 0),
            "ERROR: Duplicate procedure declaration for procedure `p` line: 12",
        ),
        (
            CompilerError::RecursiveProcedureCall("p".to_string(), 0),
            "ERROR: Recursive procedure call for procedure `p` line: 12",
        ),
        (
            CompilerError::WrongNumberOfArguments("p".to_string(), 0),
            "ERROR: Wrong number of arguments for procedure `p` line: 12",
        ),
    ];
    for (error, expected) in cases {
        assert_eq!(error.message(12), expected);
    }
}

#[test]
fn get_byte_of_every_error() {
    let errors = [
        CompilerError::UndeclaredVariable("x".to_string(), 1),
        CompilerError::UndeclaredProcedure("x".to_string(), 2),
        CompilerError::IncorrectUseOfVariable("x".to_string(), 3),
        CompilerError::IndexOutOfBounds("x".to_string(), 4),
        CompilerError::ArrayUsedAsIndex("x".to_string(), 5),
        CompilerError::WrongArgumentType("x".to_string(), 6),
        CompilerError::DuplicateVariableDeclaration("x".to_string(), 7),
        CompilerError::DuplicateProcedureDeclaration("x".to_string(), 8),
        CompilerError::RecursiveProcedureCall("x".to_string(), 9),
        CompilerError::WrongNumberOfArguments("x".to_string(), 10),
    ];
    let bytes: Vec<usize> = errors.iter().map(|error| error.get_byte()).collect();
    assert_eq!(bytes, vec![1, 2, 3, 4, 5, 6, 7, 8, 9, 10]);
}
