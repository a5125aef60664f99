use imp_codegen::assembler::Assembler;
use imp_codegen::ast::{
    ArgumentsDeclarationVariant, Command, Condition, DeclarationVariant, Expression, Identifier,
    Procedure, Program, Value,
};

fn name(text: &str) -> (String, usize) {
    (text.to_string(), 0)
}

fn var(text: &str) -> Identifier {
    Identifier::Base(name(text))
}

fn val(text: &str) -> Value {
    Value::Id(var(text))
}

fn scalar(text: &str) -> DeclarationVariant {
    DeclarationVariant::Base(name(text))
}

fn array(text: &str, size: u64) -> DeclarationVariant {
    DeclarationVariant::NumIndexed(name(text), size)
}

fn main_only(declarations: Vec<DeclarationVariant>, commands: Vec<Command>) -> Program {
    (None, (Some(declarations), commands))
}

fn compile(program: Program) -> String {
    let mut assembler = Assembler::new(program).expect("no procedure is declared twice");
    assembler.construct().expect("the program is accepted");
    assembler.assemble()
}

fn lines(text: &str) -> Vec<&str> {
    text.lines().collect()
}

#[test]
fn constant_write() {
    let program: Program = (None, (None, vec![Command::Write(Value::Num(5))]));
    assert_eq!(compile(program), "RST a\nINC a\nSHL a\nSHL a\nINC a\nWRITE\nHALT\n");
}

#[test]
fn read_then_write() {
    let program = main_only(
        vec![scalar("x")],
        vec![Command::Read(var("x")), Command::Write(val("x"))],
    );
    assert_eq!(
        compile(program),
        "RST a\nPUT g\nREAD\nSTORE g\nRST a\nLOAD a\nWRITE\nHALT\n"
    );
}

#[test]
fn if_equal_with_else() {
    let program = main_only(
        vec![scalar("a"), scalar("b")],
        vec![Command::If(
            Condition::Equal(val("a"), val("b")),
            vec![Command::Write(val("a"))],
            Some(vec![Command::Write(val("b"))]),
        )],
    );
    let expected = [
        "RST a", "LOAD a", "PUT b", "RST a", "INC a", "LOAD a", "PUT c", "SUB b", "JPOS 16",
        "GET b", "SUB c", "JPOS 16", "RST a", "LOAD a", "WRITE", "JUMP 20", "RST a", "INC a",
        "LOAD a", "WRITE", "HALT",
    ];
    assert_eq!(lines(&compile(program)), expected);
}

#[test]
fn if_equal_without_else_jumps_behind_the_then_block() {
    let program = main_only(
        vec![scalar("a"), scalar("b")],
        vec![Command::If(
            Condition::Equal(val("a"), val("b")),
            vec![Command::Write(val("a"))],
            None,
        )],
    );
    let expected = [
        "RST a", "LOAD a", "PUT b", "RST a", "INC a", "LOAD a", "PUT c", "SUB b", "JPOS 15",
        "GET b", "SUB c", "JPOS 15", "RST a", "LOAD a", "WRITE", "HALT",
    ];
    assert_eq!(lines(&compile(program)), expected);
}

#[test]
fn if_greater_falls_through_into_the_then_block() {
    let program = main_only(
        vec![scalar("a"), scalar("b")],
        vec![Command::If(
            Condition::Greater(val("a"), val("b")),
            vec![Command::Write(Value::Num(1))],
            Some(vec![Command::Write(Value::Num(0))]),
        )],
    );
    let expected = [
        "RST a", "INC a", "LOAD a", "PUT b", "RST a", "LOAD a", "SUB b", "JPOS 9", "JUMP 13",
        "RST a", "INC a", "WRITE", "JUMP 15", "RST a", "WRITE", "HALT",
    ];
    assert_eq!(lines(&compile(program)), expected);
}

#[test]
fn if_not_equal_without_else() {
    let program = main_only(
        vec![scalar("a")],
        vec![Command::If(
            Condition::NotEqual(val("a"), Value::Num(1)),
            vec![Command::Write(Value::Num(0))],
            None,
        )],
    );
    let expected = [
        "RST a", "LOAD a", "PUT b", "RST a", "INC a", "PUT c", "SUB b", "JPOS 12", "GET b",
        "SUB c", "JPOS 12", "JUMP 14", "RST a", "WRITE", "HALT",
    ];
    assert_eq!(lines(&compile(program)), expected);
}

#[test]
fn if_lower_or_equal_loads_the_right_operand_first() {
    let program = main_only(
        vec![scalar("a"), scalar("b")],
        vec![Command::If(
            Condition::LowerOrEqual(val("a"), val("b")),
            vec![Command::Write(Value::Num(0))],
            None,
        )],
    );
    let expected = [
        "RST a", "INC a", "LOAD a", "PUT b", "RST a", "LOAD a", "SUB b", "JPOS 10", "RST a",
        "WRITE", "HALT",
    ];
    assert_eq!(lines(&compile(program)), expected);
}

#[test]
fn while_down() {
    let program = main_only(
        vec![scalar("n")],
        vec![Command::While(
            Condition::Greater(val("n"), Value::Num(0)),
            vec![Command::Assign(
                var("n"),
                Expression::Substract(val("n"), Value::Num(1)),
            )],
        )],
    );
    let text = compile(program);
    let expected = [
        "RST a", "PUT b", "RST a", "LOAD a", "SUB b", "JPOS 7", "JUMP 17", "RST a", "PUT g",
        "RST a", "INC a", "PUT b", "RST a", "LOAD a", "SUB b", "STORE g", "JUMP 0", "HALT",
    ];
    assert_eq!(lines(&text), expected);
    let cond_width = 7;
    let body_width = 9;
    assert_eq!(lines(&text).len(), cond_width + body_width + 1 + 1);
}

#[test]
fn while_equal_leaves_the_loop_on_either_difference() {
    let program = main_only(
        vec![scalar("a")],
        vec![Command::While(
            Condition::Equal(val("a"), Value::Num(0)),
            vec![Command::Read(var("a"))],
        )],
    );
    let expected = [
        "RST a", "LOAD a", "PUT b", "RST a", "PUT c", "SUB b", "JPOS 15", "GET b", "SUB c",
        "JPOS 15", "RST a", "PUT g", "READ", "STORE g", "JUMP 0", "HALT",
    ];
    assert_eq!(lines(&compile(program)), expected);
}

#[test]
fn repeat_until_greater_or_equal_jumps_back_to_the_body() {
    let program = main_only(
        vec![scalar("a")],
        vec![Command::Repeat(
            vec![Command::Read(var("a"))],
            Condition::GreaterOrEqual(val("a"), Value::Num(2)),
        )],
    );
    let expected = [
        "RST a", "PUT g", "READ", "STORE g", "RST a", "LOAD a", "PUT b", "RST a", "INC a",
        "SHL a", "SUB b", "JPOS 0", "HALT",
    ];
    assert_eq!(lines(&compile(program)), expected);
}

#[test]
fn repeat_until_not_equal_jumps_back_to_the_start_of_the_body() {
    let program = main_only(
        vec![scalar("a")],
        vec![
            Command::Write(Value::Num(0)),
            Command::Repeat(
                vec![Command::Read(var("a"))],
                Condition::NotEqual(val("a"), Value::Num(0)),
            ),
        ],
    );
    let expected = [
        "RST a", "WRITE", "RST a", "PUT g", "READ", "STORE g", "RST a", "LOAD a", "PUT b",
        "RST a", "PUT c", "SUB b", "JPOS 17", "GET b", "SUB c", "JPOS 17", "JUMP 2", "HALT",
    ];
    assert_eq!(lines(&compile(program)), expected);
}

#[test]
fn repeat_until_equal_jumps_back_twice() {
    let program = main_only(
        vec![scalar("a")],
        vec![Command::Repeat(
            vec![Command::Read(var("a"))],
            Condition::Equal(val("a"), Value::Num(0)),
        )],
    );
    let expected = [
        "RST a", "PUT g", "READ", "STORE g", "RST a", "LOAD a", "PUT b", "RST a", "PUT c",
        "SUB b", "JPOS 0", "GET b", "SUB c", "JPOS 0", "HALT",
    ];
    assert_eq!(lines(&compile(program)), expected);
}

#[test]
fn repeat_until_lower_jumps_back_when_not_lower() {
    let program = main_only(
        vec![scalar("a")],
        vec![Command::Repeat(
            vec![Command::Read(var("a"))],
            Condition::Lower(val("a"), Value::Num(1)),
        )],
    );
    let expected = [
        "RST a", "PUT g", "READ", "STORE g", "RST a", "LOAD a", "PUT b", "RST a", "INC a",
        "SUB b", "JPOS 12", "JUMP 0", "HALT",
    ];
    assert_eq!(lines(&compile(program)), expected);
}

#[test]
fn array_index_by_variable() {
    let program = main_only(
        vec![scalar("x"), scalar("y"), array("t", 10), scalar("i")],
        vec![Command::Assign(
            Identifier::PidIndexed(name("t"), name("i")),
            Expression::Val(Value::Num(7)),
        )],
    );
    let expected = [
        "RST a", "INC a", "SHL a", "INC a", "SHL a", "SHL a", "LOAD a", "PUT h", "RST a",
        "INC a", "SHL a", "ADD h", "PUT g", "RST a", "INC a", "SHL a", "INC a", "SHL a", "INC a",
        "STORE g", "HALT",
    ];
    assert_eq!(lines(&compile(program)), expected);
}

#[test]
fn array_index_by_literal_adds_the_index_to_the_base() {
    let program = main_only(
        vec![scalar("x"), array("t", 10)],
        vec![Command::Write(Value::Id(Identifier::NumIndexed(name("t"), 9)))],
    );
    let expected = [
        "RST a", "INC a", "SHL a", "SHL a", "INC a", "SHL a", "LOAD a", "WRITE", "HALT",
    ];
    assert_eq!(lines(&compile(program)), expected);
}

fn increment_procedure() -> Procedure {
    (
        (name("p"), vec![ArgumentsDeclarationVariant::Base(name("x"))]),
        None,
        vec![Command::Assign(
            var("x"),
            Expression::Add(val("x"), Value::Num(1)),
        )],
    )
}

#[test]
fn procedure_call_aliases_caller_memory() {
    let program: Program = (
        Some(vec![increment_procedure()]),
        (
            Some(vec![scalar("z"), scalar("y")]),
            vec![
                Command::Assign(var("y"), Expression::Val(Value::Num(5))),
                Command::ProcCall((name("p"), vec![name("y")])),
                Command::Write(val("y")),
            ],
        ),
    );
    let expected = [
        // y := 5, with y at address 1
        "RST a", "INC a", "PUT g", "RST a", "INC a", "SHL a", "SHL a", "INC a", "STORE g",
        // the body of p, where x stands for address 1
        "RST a", "INC a", "PUT g", "RST a", "INC a", "LOAD a", "PUT b", "RST a", "INC a",
        "ADD b", "STORE g",
        // WRITE y
        "RST a", "INC a", "LOAD a", "WRITE", "HALT",
    ];
    assert_eq!(lines(&compile(program)), expected);
}

#[test]
fn locals_of_a_procedure_get_fresh_memory_at_every_call() {
    let procedure: Procedure = (
        (name("p"), vec![]),
        Some(vec![scalar("t")]),
        vec![Command::Read(var("t"))],
    );
    let program: Program = (
        Some(vec![procedure]),
        (
            Some(vec![scalar("a")]),
            vec![
                Command::ProcCall((name("p"), vec![])),
                Command::ProcCall((name("p"), vec![])),
            ],
        ),
    );
    let expected = [
        "RST a", "INC a", "PUT g", "READ", "STORE g", "RST a", "INC a", "SHL a", "PUT g", "READ",
        "STORE g", "HALT",
    ];
    assert_eq!(lines(&compile(program)), expected);
}

#[test]
fn array_passed_by_reference() {
    let procedure: Procedure = (
        (name("p"), vec![ArgumentsDeclarationVariant::Table(name("v"))]),
        None,
        vec![Command::Read(Identifier::NumIndexed(name("v"), 2))],
    );
    let program: Program = (
        Some(vec![procedure]),
        (
            Some(vec![scalar("a"), array("t", 3)]),
            vec![Command::ProcCall((name("p"), vec![name("t")]))],
        ),
    );
    let expected = ["RST a", "INC a", "SHL a", "INC a", "PUT g", "READ", "STORE g", "HALT"];
    assert_eq!(lines(&compile(program)), expected);
}

#[test]
fn nested_calls_are_inlined() {
    let inner: Procedure = (
        (name("q"), vec![ArgumentsDeclarationVariant::Base(name("u"))]),
        None,
        vec![Command::Write(val("u"))],
    );
    let outer: Procedure = (
        (name("p"), vec![ArgumentsDeclarationVariant::Base(name("x"))]),
        None,
        vec![Command::ProcCall((name("q"), vec![name("x")]))],
    );
    let program: Program = (
        Some(vec![inner, outer]),
        (
            Some(vec![scalar("a"), scalar("b")]),
            vec![Command::ProcCall((name("p"), vec![name("b")]))],
        ),
    );
    let expected = ["RST a", "INC a", "LOAD a", "WRITE", "HALT"];
    assert_eq!(lines(&compile(program)), expected);
}

#[test]
fn arithmetic_blocks_are_written_out() {
    let program = main_only(
        vec![scalar("a")],
        vec![Command::Assign(
            var("a"),
            Expression::Multiply(Value::Num(2), Value::Num(3)),
        )],
    );
    let expected = [
        "RST a", "PUT g", "RST a", "INC a", "SHL a", "PUT b", "RST a", "INC a", "SHL a", "INC a",
        "PUT c", "PUT e", "RST d", "GET c", "JZERO 28", "SHR e", "SHL e", "GET c", "SUB e",
        "JZERO 23", "GET d", "ADD b", "PUT d", "SHL b", "SHR c", "GET c", "PUT e", "JUMP 13",
        "GET d", "STORE g", "HALT",
    ];
    assert_eq!(lines(&compile(program)), expected);
}

#[test]
fn division_block() {
    let program: Program = (
        None,
        (
            Some(vec![scalar("a")]),
            vec![Command::Assign(
                var("a"),
                Expression::Divide(Value::Num(0), Value::Num(0)),
            )],
        ),
    );
    let expected = [
        "RST a", "PUT g", "RST a", "PUT b", "RST a", "PUT c", "RST d", "JZERO 28", "GET c",
        "SUB b", "JPOS 28", "GET c", "PUT e", "RST f", "INC f", "GET e", "SUB b", "JPOS 27",
        "GET b", "SUB e", "PUT b", "GET d", "ADD f", "PUT d", "SHL e", "SHL f", "JUMP 15",
        "JUMP 8", "GET d", "STORE g", "HALT",
    ];
    assert_eq!(lines(&compile(program)), expected);
}

#[test]
fn remainder_block() {
    let program: Program = (
        None,
        (
            Some(vec![scalar("a")]),
            vec![Command::Assign(
                var("a"),
                Expression::Modulo(Value::Num(0), Value::Num(0)),
            )],
        ),
    );
    let expected = [
        "RST a", "PUT g", "RST a", "PUT b", "RST a", "PUT c", "RST d", "JZERO 28", "GET c",
        "SUB b", "JPOS 29", "GET c", "PUT e", "RST f", "INC f", "GET e", "SUB b", "JPOS 27",
        "GET b", "SUB e", "PUT b", "GET d", "ADD f", "PUT d", "SHL e", "SHL f", "JUMP 15",
        "JUMP 8", "RST b", "GET b", "STORE g", "HALT",
    ];
    assert_eq!(lines(&compile(program)), expected);
}

#[test]
fn jump_over_an_arithmetic_block_counts_its_lines() {
    let program = main_only(
        vec![scalar("a")],
        vec![Command::If(
            Condition::GreaterOrEqual(val("a"), Value::Num(0)),
            vec![Command::Assign(
                var("a"),
                Expression::Multiply(val("a"), val("a")),
            )],
            None,
        )],
    );
    let text = compile(program);
    let all = lines(&text);
    // operands: RST a, LOAD a, PUT b, RST a, SUB b; then the branch on line 5
    assert_eq!(all[5], "JPOS 33");
    // the body: RST a, PUT g, RST a, LOAD a, PUT b, RST a, LOAD a, PUT c, 18 lines, STORE g
    assert_eq!(all.len(), 6 + 8 + 18 + 1 + 1);
    assert_eq!(all[32], "STORE g");
    assert_eq!(all[33], "HALT");
}

#[test]
fn subtraction_loads_the_subtrahend_first() {
    let program = main_only(
        vec![scalar("a"), scalar("b")],
        vec![Command::Assign(
            var("a"),
            Expression::Substract(val("a"), val("b")),
        )],
    );
    let expected = [
        "RST a", "PUT g", "RST a", "INC a", "LOAD a", "PUT b", "RST a", "LOAD a", "SUB b",
        "STORE g", "HALT",
    ];
    assert_eq!(lines(&compile(program)), expected);
}

#[test]
fn constructing_twice_appends_the_main_block_again() {
    let program: Program = (None, (None, vec![Command::Write(Value::Num(0))]));
    let mut assembler = Assembler::new(program).unwrap();
    assembler.construct().unwrap();
    assembler.construct().unwrap();
    assert_eq!(assembler.assemble(), "RST a\nWRITE\nHALT\nRST a\nWRITE\nHALT\n");
}

#[test]
fn try_construct_agrees_with_construct() {
    let program: Program = (None, (None, vec![Command::Write(Value::Num(1))]));
    let mut assembler = Assembler::new(program).unwrap();
    assert!(matches!(assembler.try_construct(), Some(Ok(()))));
    assert_eq!(assembler.assemble(), "RST a\nINC a\nWRITE\nHALT\n");
}

#[test]
fn variables_that_do_not_fit_the_address_space_exhaust_the_machine() {
    let program = main_only(
        vec![array("t", u64::MAX), scalar("x")],
        vec![Command::Write(Value::Num(1))],
    );
    let mut assembler = Assembler::new(program).unwrap();
    assert!(assembler.try_construct().is_none());
    assert_eq!(assembler.assemble(), "");
}

#[test]
fn local_variables_that_do_not_fit_exhaust_the_machine() {
    let procedure: Procedure = (
        (name("p"), vec![]),
        Some(vec![array("big", u64::MAX)]),
        vec![Command::Write(Value::Num(0))],
    );
    let program: Program = (
        Some(vec![procedure]),
        (
            Some(vec![scalar("a")]),
            vec![Command::ProcCall((name("p"), vec![]))],
        ),
    );
    let mut assembler = Assembler::new(program).unwrap();
    assert!(assembler.try_construct().is_none());
}
