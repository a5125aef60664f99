use imp_codegen::ast::{
    ArgumentsDeclarationVariant, Command, Condition, DeclarationVariant, Expression, Identifier,
    Procedure, Program, Value,
};
use imp_codegen::command::{
    construct_command, construct_commands, enter_call, find_procedure_index, lay_out,
};
use imp_codegen::condition::{branch_backward, branch_forward, count_branches};
use imp_codegen::context::Context;
use imp_codegen::diagnostics::{find_line_number, warning_message};
use imp_codegen::error::{CompilerError, Stop};
use imp_codegen::instruction::{join, total_width, Instruction, Register};
use imp_codegen::memory::{NameSet, SymbolTable, Table, VariableVariant};
use imp_codegen::names::{
    characters, contains_chars, mentions_owner, qualify, visible_name,
};
use imp_codegen::pas::{MainAssembler, ProcedureAssembler, PseudoAssembler};
use imp_codegen::rename::ProcedureBuilder;
use imp_codegen::text::{render, resolve, write_decimal};

fn name(text: &str) -> (String, usize) {
    (text.to_string(), 0)
}

fn at(text: &str, byte: usize) -> (String, usize) {
    (text.to_string(), byte)
}

fn var(text: &str) -> Identifier {
    Identifier::Base(name(text))
}

fn val(text: &str) -> Value {
    Value::Id(var(text))
}

#[test]
fn qualify_puts_the_owner_behind_the_separator() {
    assert_eq!(qualify(&"x".to_string(), &"proc".to_string()), "x@proc");
    assert_eq!(qualify(&"".to_string(), &"".to_string()), "@");
    assert_eq!(qualify(&"żółw".to_string(), &"p".to_string()), "żółw@p");
}

#[test]
fn visible_name_is_what_stands_before_the_first_separator() {
    assert_eq!(visible_name(&"x@proc".to_string()), "x");
    assert_eq!(visible_name(&"x".to_string()), "x");
    assert_eq!(visible_name(&"x@p@q".to_string()), "x");
    assert_eq!(visible_name(&"@p".to_string()), "");
    assert_eq!(visible_name(&"".to_string()), "");
    assert_eq!(visible_name(&"żółw@p".to_string()), "żółw");
}

#[test]
fn mentions_owner_looks_for_the_mark_anywhere() {
    let p = "p".to_string();
    assert!(mentions_owner(&"x@p".to_string(), &p));
    assert!(mentions_owner(&"x@pq".to_string(), &p));
    assert!(mentions_owner(&"x@p@q".to_string(), &p));
    assert!(mentions_owner(&"@p".to_string(), &p));
    assert!(!mentions_owner(&"x".to_string(), &p));
    assert!(!mentions_owner(&"xp".to_string(), &p));
    assert!(!mentions_owner(&"x@q".to_string(), &p));
    assert!(!mentions_owner(&"p@".to_string(), &p));
    assert!(!mentions_owner(&"".to_string(), &p));
    assert!(mentions_owner(&"x@".to_string(), &"".to_string()));
}

#[test]
fn characters_and_contains_chars() {
    assert_eq!(characters("a@b"), vec!['a', '@', 'b']);
    assert_eq!(characters(""), Vec::<char>::new());
    assert_eq!(characters("żó"), vec!['ż', 'ó']);
    let whole = characters("abcabd");
    assert!(contains_chars(&whole, &characters("abd")));
    assert!(contains_chars(&whole, &characters("")));
    assert!(contains_chars(&whole, &characters("abcabd")));
    assert!(!contains_chars(&whole, &characters("abda")));
    assert!(!contains_chars(&whole, &characters("abcabdx")));
    assert!(contains_chars(&Vec::new(), &Vec::new()));
    assert!(!contains_chars(&Vec::new(), &characters("a")));
}

#[test]
fn symbol_table_keeps_the_latest_binding() {
    let mut table: SymbolTable = Table::new();
    assert_eq!(table.get(&"x".to_string()), None);
    table.insert("x".to_string(), VariableVariant::Atomic(3));
    table.insert("t".to_string(), VariableVariant::Table(4, 7));
    assert_eq!(table.get(&"x".to_string()), Some(&VariableVariant::Atomic(3)));
    assert_eq!(table.get(&"t".to_string()), Some(&VariableVariant::Table(4, 7)));
    table.insert("x".to_string(), VariableVariant::Atomic(11));
    assert_eq!(table.get(&"x".to_string()), Some(&VariableVariant::Atomic(11)));
    assert_eq!(table.get(&"y".to_string()), None);
}

#[test]
fn name_set_holds_what_was_inserted() {
    let mut set = NameSet::new();
    assert!(!set.contains(&"x".to_string()));
    set.insert("x".to_string());
    set.insert("x".to_string());
    set.insert("y@p".to_string());
    assert!(set.contains(&"x".to_string()));
    assert!(set.contains(&"y@p".to_string()));
    assert!(!set.contains(&"y".to_string()));
}

#[test]
fn context_declares_one_behind_the_other() {
    let mut context = Context::new();
    let owner = "p".to_string();
    assert!(context.declare(&DeclarationVariant::Base(name("a")), None));
    assert!(context.declare(&DeclarationVariant::NumIndexed(name("t"), 5), None));
    assert!(context.declare(&DeclarationVariant::Base(name("a")), Some(&owner)));
    assert!(context.declare(&DeclarationVariant::NumIndexed(name("empty"), 0), None));
    assert!(context.declare(&DeclarationVariant::Base(name("b")), None));
    assert_eq!(context.lookup(&"a".to_string()), Some(VariableVariant::Atomic(0)));
    assert_eq!(context.lookup(&"t".to_string()), Some(VariableVariant::Table(1, 5)));
    assert_eq!(context.lookup(&"a@p".to_string()), Some(VariableVariant::Atomic(6)));
    assert_eq!(context.lookup(&"empty".to_string()), Some(VariableVariant::Table(7, 0)));
    assert_eq!(context.lookup(&"b".to_string()), Some(VariableVariant::Atomic(7)));
    assert_eq!(context.lookup(&"c".to_string()), None);
}

#[test]
fn context_refuses_what_does_not_fit() {
    let mut context = Context::new();
    assert!(context.declare(&DeclarationVariant::NumIndexed(name("t"), u64::MAX), None));
    assert!(!context.declare(&DeclarationVariant::Base(name("a")), None));
    assert_eq!(context.lookup(&"a".to_string()), None);
    assert!(context.declare(&DeclarationVariant::NumIndexed(name("e"), 0), None));
    assert_eq!(context.lookup(&"e".to_string()), Some(VariableVariant::Table(u64::MAX, 0)));
}

#[test]
fn lay_out_stops_at_the_first_that_does_not_fit() {
    let mut context = Context::new();
    let declarations = Some(vec![
        DeclarationVariant::Base(name("a")),
        DeclarationVariant::NumIndexed(name("t"), u64::MAX),
        DeclarationVariant::Base(name("b")),
    ]);
    assert!(!lay_out(&mut context, &declarations, None));
    assert_eq!(context.lookup(&"a".to_string()), Some(VariableVariant::Atomic(0)));
    assert_eq!(context.lookup(&"t".to_string()), None);
    assert_eq!(context.lookup(&"b".to_string()), None);
    let mut context = Context::new();
    assert!(lay_out(&mut context, &None, None));
}

#[test]
fn context_notes_uses_and_values() {
    let mut context = Context::new();
    context.note_use(&"x@p".to_string());
    context.mark_initialised("x@p".to_string());
    context.note_use(&"x@p".to_string());
    context.note_use(&"y".to_string());
    context.bind("f@p".to_string(), VariableVariant::Table(2, 3));
    assert_eq!(context.warnings(), &["x", "y"]);
    assert_eq!(context.lookup(&"f@p".to_string()), Some(VariableVariant::Table(2, 3)));
}

#[test]
fn value_level_code() {
    let mut context = Context::new();
    context.declare(&DeclarationVariant::Base(name("a")), None);
    context.declare(&DeclarationVariant::NumIndexed(name("t"), 3), None);
    let rst = Instruction::Rst(Register::A);
    let inc = Instruction::Inc(Register::A);
    let shl = Instruction::Shl(Register::A);
    let load = Instruction::Load(Register::A);
    assert_eq!(context.get_pointer_from_identifier(&var("a")).unwrap(), vec![rst]);
    assert_eq!(
        context
            .get_pointer_from_identifier(&Identifier::NumIndexed(name("t"), 2))
            .unwrap(),
        vec![rst, inc, shl, inc]
    );
    assert_eq!(
        context
            .get_pointer_from_identifier(&Identifier::PidIndexed(name("t"), name("a")))
            .unwrap(),
        vec![rst, load, Instruction::Put(Register::H), rst, inc, Instruction::Add(Register::H)]
    );
    assert_eq!(context.extract_value(&Value::Num(2)).unwrap(), vec![rst, inc, shl]);
    assert_eq!(context.extract_value(&val("a")).unwrap(), vec![rst, load]);
    assert_eq!(
        context
            .construct_expression(&Expression::Modulo(val("a"), Value::Num(1)))
            .unwrap(),
        vec![
            rst,
            load,
            Instruction::Put(Register::B),
            rst,
            inc,
            Instruction::Put(Register::C),
            Instruction::Mod
        ]
    );
    assert_eq!(
        context.construct_expression(&Expression::Val(Value::Num(0))).unwrap(),
        vec![rst]
    );
    assert_eq!(context.warnings(), &["a", "a"]);
    context.check_if_initialised(&Value::Id(Identifier::NumIndexed(name("t"), 7)));
    context.check_if_initialised(&Value::Num(7));
    assert_eq!(context.warnings(), &["a", "a", "t"]);
    assert_eq!(
        context
            .load_operands(&Condition::Greater(val("a"), Value::Num(1)))
            .unwrap(),
        vec![rst, inc, Instruction::Put(Register::B), rst, load, Instruction::Sub(Register::B)]
    );
    assert_eq!(
        context
            .load_operands(&Condition::NotEqual(val("a"), Value::Num(1)))
            .unwrap(),
        vec![
            rst,
            load,
            Instruction::Put(Register::B),
            rst,
            inc,
            Instruction::Put(Register::C),
            Instruction::Sub(Register::B)
        ]
    );
}

fn conditions() -> Vec<Condition> {
    vec![
        Condition::Equal(Value::Num(0), Value::Num(0)),
        Condition::NotEqual(Value::Num(0), Value::Num(0)),
        Condition::Greater(Value::Num(0), Value::Num(0)),
        Condition::Lower(Value::Num(0), Value::Num(0)),
        Condition::GreaterOrEqual(Value::Num(0), Value::Num(0)),
        Condition::LowerOrEqual(Value::Num(0), Value::Num(0)),
    ]
}

#[test]
fn forward_branches_go_behind_the_body() {
    let get = Instruction::Get(Register::B);
    let sub = Instruction::Sub(Register::C);
    let expected = [
        vec![Instruction::Jpos(14), get, sub, Instruction::Jpos(11)],
        vec![Instruction::Jpos(5), get, sub, Instruction::Jpos(2), Instruction::Jump(11)],
        vec![Instruction::Jpos(2), Instruction::Jump(11)],
        vec![Instruction::Jpos(2), Instruction::Jump(11)],
        vec![Instruction::Jpos(11)],
        vec![Instruction::Jpos(11)],
    ];
    for (condition, branches) in conditions().iter().zip(expected) {
        assert_eq!(branch_forward(condition, 10), branches);
        assert_eq!(count_branches(condition), branches.len() as u64);
    }
}

#[test]
fn backward_branches_go_to_the_start_of_the_body() {
    let get = Instruction::Get(Register::B);
    let sub = Instruction::Sub(Register::C);
    let expected = [
        vec![Instruction::Jpos(-10), get, sub, Instruction::Jpos(-13)],
        vec![Instruction::Jpos(5), get, sub, Instruction::Jpos(2), Instruction::Jump(-14)],
        vec![Instruction::Jpos(2), Instruction::Jump(-11)],
        vec![Instruction::Jpos(2), Instruction::Jump(-11)],
        vec![Instruction::Jpos(-10)],
        vec![Instruction::Jpos(-10)],
    ];
    for (condition, branches) in conditions().iter().zip(expected) {
        assert_eq!(branch_backward(condition, 10), branches);
    }
}

#[test]
fn widths_of_instructions() {
    assert_eq!(Instruction::Mul.len(), 18);
    assert_eq!(Instruction::Div.len(), 23);
    assert_eq!(Instruction::Mod.len(), 24);
    assert_eq!(Instruction::Halt.len(), 1);
    assert_eq!(Instruction::Jump(-3).len(), 1);
    assert_eq!(Instruction::Load(Register::H).len(), 1);
    let mut code = vec![Instruction::Mul, Instruction::Read];
    join(&mut code, vec![Instruction::Mod, Instruction::Div]);
    assert_eq!(
        code,
        vec![Instruction::Mul, Instruction::Read, Instruction::Mod, Instruction::Div]
    );
    assert_eq!(total_width(&code), 18 + 1 + 24 + 23);
    assert_eq!(total_width(&Vec::new()), 0);
}

#[test]
fn resolve_makes_jumps_absolute() {
    let code = vec![
        Instruction::Jzero(3),
        Instruction::Mul,
        Instruction::Jpos(-19),
        Instruction::Jump(0),
        Instruction::Jump(1),
    ];
    let lines = resolve(&code);
    assert_eq!(lines.len(), 22);
    assert_eq!(lines[0], Instruction::Jzero(3));
    assert_eq!(lines[4], Instruction::Jzero(18));
    assert_eq!(lines[19], Instruction::Jpos(0));
    assert_eq!(lines[20], Instruction::Jump(20));
    assert_eq!(lines[21], Instruction::Jump(22));
}

#[test]
fn render_writes_every_kind_of_line() {
    let lines = vec![
        Instruction::Read,
        Instruction::Write,
        Instruction::Load(Register::A),
        Instruction::Store(Register::B),
        Instruction::Add(Register::C),
        Instruction::Sub(Register::D),
        Instruction::Get(Register::E),
        Instruction::Put(Register::F),
        Instruction::Rst(Register::G),
        Instruction::Inc(Register::H),
        Instruction::Dec(Register::A),
        Instruction::Shl(Register::B),
        Instruction::Shr(Register::C),
        Instruction::Jump(0),
        Instruction::Jpos(1090),
        Instruction::Jzero(i64::MAX),
        Instruction::Jump(-7),
        Instruction::Jump(i64::MIN),
        Instruction::Halt,
    ];
    assert_eq!(
        render(&lines),
        "READ\nWRITE\nLOAD a\nSTORE b\nADD c\nSUB d\nGET e\nPUT f\nRST g\nINC h\nDEC a\nSHL b\n\
         SHR c\nJUMP 0\nJPOS 1090\nJZERO 9223372036854775807\nJUMP -7\n\
         JUMP -9223372036854775808\nHALT\n"
    );
    assert_eq!(render(&Vec::new()), "");
}

#[test]
fn write_decimal_appends_the_digits() {
    for value in [0, 7, 9, 10, 11, 99, 100, 1234567890, u64::MAX] {
        let mut text = "n=".to_string();
        write_decimal(&mut text, value);
        assert_eq!(text, format!("n={value}"));
    }
}

#[test]
fn line_numbers_count_the_line_feeds() {
    // "ab\ncde\n\nf": the lines have 2, 3, 0 and 1 bytes
    let text = "ab\ncde\n\nf";
    let lengths: Vec<usize> = text.lines().map(|line| line.len()).collect();
    assert_eq!(lengths, vec![2, 3, 0, 1]);
    let expected = [
        Some(1),
        Some(1),
        Some(1),
        Some(2),
        Some(2),
        Some(2),
        Some(2),
        Some(3),
        Some(4),
        Some(4),
        None,
        None,
    ];
    for (offset, line) in expected.into_iter().enumerate() {
        assert_eq!(find_line_number(&lengths, offset), line, "{offset}");
    }
    // within the text, the line is 1 more than the line feeds before the byte
    for offset in 0..text.len() {
        let feeds = text.as_bytes()[..offset].iter().filter(|byte| **byte == b'\n').count();
        assert_eq!(find_line_number(&lengths, offset), Some(1 + feeds), "{offset}");
    }
    assert_eq!(find_line_number(&lengths, usize::MAX), None);
}

#[test]
fn line_numbers_of_a_text_that_ends_with_a_line_feed() {
    let text = "PROGRAM IS\r\n  x\nIN\n\nEND\n";
    let lengths: Vec<usize> = text.split('\n').map(|line| line.len()).collect();
    assert_eq!(lengths, vec![11, 3, 2, 0, 3, 0]);
    for offset in 0..=text.len() {
        let feeds = text.as_bytes()[..offset].iter().filter(|byte| **byte == b'\n').count();
        assert_eq!(find_line_number(&lengths, offset), Some(1 + feeds), "{offset}");
    }
    assert_eq!(find_line_number(&lengths, text.len() + 1), None);
}

#[test]
fn line_numbers_at_the_edges() {
    // the first byte of a line belongs to that line
    assert_eq!(find_line_number(&vec![1, 1], 1), Some(1));
    assert_eq!(find_line_number(&vec![1, 1], 2), Some(2));
    assert_eq!(find_line_number(&vec![1, 1], 3), Some(2));
    assert_eq!(find_line_number(&vec![1, 1], 4), None);
    // the line feed of an empty line belongs to the empty line
    assert_eq!(find_line_number(&vec![0, 0, 0], 0), Some(1));
    assert_eq!(find_line_number(&vec![0, 0, 0], 1), Some(2));
    assert_eq!(find_line_number(&vec![0, 0, 0], 2), Some(3));
    assert_eq!(find_line_number(&vec![0, 0, 0], 3), None);
    assert_eq!(find_line_number(&Vec::new(), 0), None);
    assert_eq!(find_line_number(&vec![usize::MAX, 0], usize::MAX), Some(1));
    assert_eq!(find_line_number(&vec![usize::MAX - 1, 5], usize::MAX), Some(2));
    assert_eq!(find_line_number(&vec![usize::MAX - 1], usize::MAX), None);
    assert_eq!(find_line_number(&vec![usize::MAX - 1], usize::MAX - 1), Some(1));
}

#[test]
fn warning_message_names_the_variable() {
    assert_eq!(
        warning_message(&"x".to_string()),
        "Warning: Variable x used before initialisation"
    );
}

fn sample_procedure() -> Procedure {
    (
        (
            at("p", 10),
            vec![
                ArgumentsDeclarationVariant::Base(at("x", 12)),
                ArgumentsDeclarationVariant::Table(at("v", 14)),
            ],
        ),
        Some(vec![
            DeclarationVariant::Base(at("l", 20)),
            DeclarationVariant::NumIndexed(at("w", 22), 4),
        ]),
        vec![
            Command::Assign(
                Identifier::PidIndexed(at("v", 30), at("x", 32)),
                Expression::Multiply(
                    Value::Id(Identifier::NumIndexed(at("w", 34), 1)),
                    Value::Num(3),
                ),
            ),
            Command::If(
                Condition::Lower(Value::Id(Identifier::Base(at("l", 40))), Value::Num(2)),
                vec![Command::Read(Identifier::Base(at("l", 44)))],
                Some(vec![Command::Write(Value::Id(Identifier::Base(at("x", 48))))]),
            ),
            Command::While(
                Condition::Equal(Value::Num(1), Value::Id(Identifier::Base(at("x", 50)))),
                vec![Command::Repeat(
                    vec![Command::ProcCall((at("q", 54), vec![at("l", 56), at("v", 58)]))],
                    Condition::GreaterOrEqual(
                        Value::Id(Identifier::Base(at("l", 60))),
                        Value::Id(Identifier::Base(at("x", 62))),
                    ),
                )],
            ),
        ],
    )
}

#[test]
fn procedure_builder_qualifies_every_variable() {
    let builder = ProcedureBuilder::new(sample_procedure());
    assert_eq!(builder.name(), "p");
    assert_eq!(format!("{:?}", builder.declared_arguments()), format!("{:?}", sample_procedure().0 .1));
    assert_eq!(format!("{:?}", builder.declarations()), format!("{:?}", sample_procedure().1));
    let expected: Vec<Command> = vec![
        Command::Assign(
            Identifier::PidIndexed(at("v@p", 30), at("x@p", 32)),
            Expression::Multiply(
                Value::Id(Identifier::NumIndexed(at("w@p", 34), 1)),
                Value::Num(3),
            ),
        ),
        Command::If(
            Condition::Lower(Value::Id(Identifier::Base(at("l@p", 40))), Value::Num(2)),
            vec![Command::Read(Identifier::Base(at("l@p", 44)))],
            Some(vec![Command::Write(Value::Id(Identifier::Base(at("x@p", 48))))]),
        ),
        Command::While(
            Condition::Equal(Value::Num(1), Value::Id(Identifier::Base(at("x@p", 50)))),
            vec![Command::Repeat(
                vec![Command::ProcCall((at("q", 54), vec![at("l@p", 56), at("v@p", 58)]))],
                Condition::GreaterOrEqual(
                    Value::Id(Identifier::Base(at("l@p", 60))),
                    Value::Id(Identifier::Base(at("x@p", 62))),
                ),
            )],
        ),
    ];
    assert_eq!(format!("{:?}", builder.commands()), format!("{expected:?}"));
}

#[test]
fn procedure_builder_renames_every_expression_and_condition() {
    let zero = || Value::Id(Identifier::Base(at("a", 1)));
    let one = || Value::Id(Identifier::Base(at("b", 2)));
    let renamed_zero = || Value::Id(Identifier::Base(at("a@f", 1)));
    let renamed_one = || Value::Id(Identifier::Base(at("b@f", 2)));
    type Expr = fn(Value, Value) -> Expression;
    type Cond = fn(Value, Value) -> Condition;
    let expressions: [Expr; 5] = [
        Expression::Add,
        Expression::Substract,
        Expression::Multiply,
        Expression::Divide,
        Expression::Modulo,
    ];
    let conditions: [Cond; 6] = [
        Condition::Equal,
        Condition::NotEqual,
        Condition::Greater,
        Condition::Lower,
        Condition::GreaterOrEqual,
        Condition::LowerOrEqual,
    ];
    let mut commands = vec![Command::Assign(
        Identifier::Base(at("a", 0)),
        Expression::Val(zero()),
    )];
    let mut expected = vec![Command::Assign(
        Identifier::Base(at("a@f", 0)),
        Expression::Val(renamed_zero()),
    )];
    for make in expressions {
        commands.push(Command::Assign(Identifier::Base(at("a", 0)), make(zero(), one())));
        expected.push(Command::Assign(
            Identifier::Base(at("a@f", 0)),
            make(renamed_zero(), renamed_one()),
        ));
    }
    for make in conditions {
        commands.push(Command::If(make(zero(), one()), vec![], None));
        expected.push(Command::If(make(renamed_zero(), renamed_one()), vec![], None));
    }
    let builder = ProcedureBuilder::new(((at("f", 0), vec![]), None, commands));
    assert_eq!(format!("{:?}", builder.commands()), format!("{expected:?}"));
}

#[test]
fn find_procedure_index_finds_the_first_of_a_name() {
    let procedures = vec![
        ProcedureBuilder::new(((at("p", 0), vec![]), None, vec![])),
        ProcedureBuilder::new(((at("q", 0), vec![]), None, vec![])),
        ProcedureBuilder::new(((at("q", 0), vec![]), None, vec![])),
    ];
    assert_eq!(find_procedure_index(&procedures, &"p".to_string()), Some(0));
    assert_eq!(find_procedure_index(&procedures, &"q".to_string()), Some(1));
    assert_eq!(find_procedure_index(&procedures, &"r".to_string()), None);
    assert_eq!(find_procedure_index(&Vec::new(), &"p".to_string()), None);
}

#[test]
fn enter_call_binds_formals_to_the_regions_of_the_arguments() {
    let procedures = vec![ProcedureBuilder::new(sample_procedure())];
    let mut context = Context::new();
    context.declare(&DeclarationVariant::NumIndexed(name("t"), 3), None);
    context.declare(&DeclarationVariant::Base(name("a")), None);
    let entered = enter_call(
        &procedures,
        &vec![false],
        &mut context,
        &at("p", 70),
        &vec![at("a", 72), at("t", 74)],
    );
    assert!(matches!(entered, Ok(0)));
    assert_eq!(context.lookup(&"l@p".to_string()), Some(VariableVariant::Atomic(4)));
    assert_eq!(context.lookup(&"w@p".to_string()), Some(VariableVariant::Table(5, 4)));
    assert_eq!(context.lookup(&"x@p".to_string()), Some(VariableVariant::Atomic(3)));
    assert_eq!(context.lookup(&"v@p".to_string()), Some(VariableVariant::Table(0, 3)));
    // the arguments and the formals count as holding a value, the locals do not
    context.note_use(&"a".to_string());
    context.note_use(&"t".to_string());
    context.note_use(&"x@p".to_string());
    context.note_use(&"v@p".to_string());
    assert!(context.warnings().is_empty());
    context.note_use(&"l@p".to_string());
    assert_eq!(context.warnings(), &["l"]);
}

#[test]
fn enter_call_refuses_a_procedure_under_expansion() {
    let procedures = vec![ProcedureBuilder::new(sample_procedure())];
    let mut context = Context::new();
    context.declare(&DeclarationVariant::NumIndexed(name("t"), 3), None);
    context.declare(&DeclarationVariant::Base(name("a")), None);
    let entered = enter_call(
        &procedures,
        &vec![true],
        &mut context,
        &at("p", 70),
        &vec![at("a", 72), at("t", 74)],
    );
    assert!(matches!(
        entered,
        Err(Stop::Fault(CompilerError::RecursiveProcedureCall(callee, 70))) if callee == "p"
    ));
    assert_eq!(context.lookup(&"l@p".to_string()), None);
}

#[test]
fn construct_command_leaves_the_marks_as_they_were() {
    let leaf: Procedure = ((at("leaf", 0), vec![]), None, vec![Command::Write(Value::Num(1))]);
    let root: Procedure = (
        (at("root", 0), vec![]),
        None,
        vec![Command::ProcCall((at("leaf", 5), vec![]))],
    );
    let procedures = vec![ProcedureBuilder::new(leaf), ProcedureBuilder::new(root)];
    let mut active = vec![false, false];
    let mut context = Context::new();
    let code = construct_command(
        &procedures,
        &mut active,
        &mut context,
        &Command::ProcCall((at("root", 9), vec![])),
    )
    .unwrap();
    assert_eq!(
        code,
        vec![Instruction::Rst(Register::A), Instruction::Inc(Register::A), Instruction::Write]
    );
    assert_eq!(active, vec![false, false]);
    let both = construct_commands(
        &procedures,
        &mut active,
        &mut context,
        &vec![Command::Write(Value::Num(0)), Command::ProcCall((at("leaf", 9), vec![]))],
    )
    .unwrap();
    assert_eq!(both.len(), 2 + 3);
    let mut active = vec![true, false];
    let stopped = construct_commands(
        &procedures,
        &mut active,
        &mut context,
        &vec![Command::ProcCall((at("root", 9), vec![]))],
    );
    assert!(matches!(
        stopped,
        Err(Stop::Fault(CompilerError::RecursiveProcedureCall(callee, 5))) if callee == "leaf"
    ));
}

#[test]
fn table_keeps_the_latest_binding() {
    let mut table: Table<u8> = Table::new();
    assert_eq!(table.get(&"x".to_string()), None);
    table.insert("x".to_string(), 1);
    table.insert("y".to_string(), 2);
    table.insert("x".to_string(), 3);
    assert_eq!(table.get(&"x".to_string()), Some(&3));
    assert_eq!(table.get(&"y".to_string()), Some(&2));
    assert_eq!(table.get(&"z".to_string()), None);
}

#[test]
fn survey_of_a_program() {
    let other: Procedure = (
        (at("p", 90), vec![ArgumentsDeclarationVariant::Table(at("only", 92))]),
        None,
        vec![],
    );
    let program: Program = (
        Some(vec![sample_procedure(), ((at("q", 0), vec![]), None, vec![]), other]),
        (
            Some(vec![
                DeclarationVariant::Base(name("a")),
                DeclarationVariant::NumIndexed(name("t"), 9),
                DeclarationVariant::NumIndexed(name("a"), 2),
            ]),
            vec![],
        ),
    );
    let survey = PseudoAssembler::new(program);
    let atomic = imp_codegen::pas::VariableVariant::Atomic;
    let table = imp_codegen::pas::VariableVariant::Table;
    assert_eq!(survey.main().variable(&"a".to_string()), Some(table(Some(2))));
    assert_eq!(survey.main().variable(&"t".to_string()), Some(table(Some(9))));
    assert_eq!(survey.main().variable(&"x".to_string()), None);
    assert!(survey.procedure(&"r".to_string()).is_none());
    let q = survey.procedure(&"q".to_string()).expect("q is a procedure");
    assert_eq!(q.outer(&"x".to_string()), None);
    assert_eq!(q.inner(&"l".to_string()), None);
    // the later procedure of a name replaces the earlier one
    let p = survey.procedure(&"p".to_string()).expect("p is a procedure");
    assert_eq!(p.outer(&"only".to_string()), Some(table(None)));
    assert_eq!(p.outer(&"x".to_string()), None);
    let first = ProcedureAssembler::new(&sample_procedure());
    assert_eq!(first.outer(&"x".to_string()), Some(atomic));
    assert_eq!(first.outer(&"v".to_string()), Some(table(None)));
    assert_eq!(first.outer(&"l".to_string()), None);
    assert_eq!(first.inner(&"l".to_string()), Some(atomic));
    assert_eq!(first.inner(&"w".to_string()), Some(table(Some(4))));
    assert_eq!(first.inner(&"x".to_string()), None);
    let main = MainAssembler::new(&(None, vec![]));
    assert_eq!(main.variable(&"a".to_string()), None);
}
