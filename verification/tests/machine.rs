use imp_codegen::assembler::Assembler;
use imp_codegen::ast::{
    ArgumentsDeclarationVariant, Command, Condition, DeclarationVariant, Expression, Identifier,
    Procedure, Program, Value,
};

/// Runs the text of an assembly on the register machine: eight registers
/// `a` to `h`, a memory of words, subtraction that stops at zero.
fn run(text: &str, input: &[u64]) -> Vec<u64> {
    let lines: Vec<Vec<&str>> = text.lines().map(|l| l.split(' ').collect()).collect();
    let mut registers = [0u64; 8];
    let mut memory = std::collections::HashMap::<u64, u64>::new();
    let mut input = input.iter();
    let mut output = Vec::new();
    let mut pc = 0usize;
    let mut steps = 0u64;
    loop {
        steps += 1;
        assert!(steps < 10_000_000, "the program does not halt");
        let line = &lines[pc];
        let register = |line: &Vec<&str>| (line[1].as_bytes()[0] - b'a') as usize;
        let target = |line: &Vec<&str>| line[1].parse::<usize>().expect("a line number");
        pc += 1;
        match line[0] {
            "READ" => registers[0] = *input.next().expect("enough input"),
            "WRITE" => output.push(registers[0]),
            "LOAD" => registers[0] = *memory.get(&registers[register(line)]).unwrap_or(&0),
            "STORE" => {
                memory.insert(registers[register(line)], registers[0]);
            }
            "ADD" => registers[0] += registers[register(line)],
            "SUB" => registers[0] = registers[0].saturating_sub(registers[register(line)]),
            "GET" => registers[0] = registers[register(line)],
            "PUT" => registers[register(line)] = registers[0],
            "RST" => registers[register(line)] = 0,
            "INC" => registers[register(line)] += 1,
            "DEC" => registers[register(line)] = registers[register(line)].saturating_sub(1),
            "SHL" => registers[register(line)] *= 2,
            "SHR" => registers[register(line)] /= 2,
            "JUMP" => pc = target(line),
            "JPOS" => {
                if registers[0] > 0 {
                    pc = target(line);
                }
            }
            "JZERO" => {
                if registers[0] == 0 {
                    pc = target(line);
                }
            }
            "HALT" => return output,
            other => panic!("{other} is no instruction"),
        }
    }
}

fn name(text: &str) -> (String, usize) {
    (text.to_string(), 0)
}

fn var(text: &str) -> Identifier {
    Identifier::Base(name(text))
}

fn val(text: &str) -> Value {
    Value::Id(var(text))
}

fn scalar(text: &str) -> DeclarationVariant {
    DeclarationVariant::Base(name(text))
}

fn compile(program: Program) -> String {
    let mut assembler = Assembler::new(program).expect("no procedure is declared twice");
    assembler.construct().expect("the program is accepted");
    assembler.assemble()
}

fn binary(make: fn(Value, Value) -> Expression) -> String {
    compile((
        None,
        (
            Some(vec![scalar("a"), scalar("b"), scalar("c")]),
            vec![
                Command::Read(var("a")),
                Command::Read(var("b")),
                Command::Assign(var("c"), make(val("a"), val("b"))),
                Command::Write(val("c")),
            ],
        ),
    ))
}

const SAMPLES: [u64; 12] = [0, 1, 2, 3, 4, 5, 7, 8, 10, 63, 64, 1000];

#[test]
fn machine_adds_and_subtracts() {
    let add = binary(Expression::Add);
    let sub = binary(Expression::Substract);
    for a in SAMPLES {
        for b in SAMPLES {
            assert_eq!(run(&add, &[a, b]), vec![a + b]);
            assert_eq!(run(&sub, &[a, b]), vec![a.saturating_sub(b)]);
        }
    }
}

#[test]
fn machine_multiplies() {
    let mul = binary(Expression::Multiply);
    for a in SAMPLES {
        for b in SAMPLES {
            assert_eq!(run(&mul, &[a, b]), vec![a * b], "{a} * {b}");
        }
    }
}

#[test]
fn machine_divides() {
    let div = binary(Expression::Divide);
    for a in SAMPLES {
        for b in SAMPLES {
            let expected = if b == 0 { 0 } else { a / b };
            assert_eq!(run(&div, &[a, b]), vec![expected], "{a} / {b}");
        }
    }
}

#[test]
fn machine_takes_remainders() {
    let modulo = binary(Expression::Modulo);
    for a in SAMPLES {
        for b in SAMPLES {
            let expected = if b == 0 { 0 } else { a % b };
            assert_eq!(run(&modulo, &[a, b]), vec![expected], "{a} % {b}");
        }
    }
}

fn holds(condition: &Condition, a: u64, b: u64) -> bool {
    match condition {
        Condition::Equal(..) => a == b,
        Condition::NotEqual(..) => a != b,
        Condition::Greater(..) => a > b,
        Condition::Lower(..) => a < b,
        Condition::GreaterOrEqual(..) => a >= b,
        Condition::LowerOrEqual(..) => a <= b,
    }
}

fn conditions() -> Vec<fn(Value, Value) -> Condition> {
    vec![
        Condition::Equal,
        Condition::NotEqual,
        Condition::Greater,
        Condition::Lower,
        Condition::GreaterOrEqual,
        Condition::LowerOrEqual,
    ]
}

#[test]
fn machine_takes_the_right_branch_of_a_conditional() {
    for make in conditions() {
        for with_else in [false, true] {
            let text = compile((
                None,
                (
                    Some(vec![scalar("a"), scalar("b")]),
                    vec![
                        Command::Read(var("a")),
                        Command::Read(var("b")),
                        Command::If(
                            make(val("a"), val("b")),
                            vec![Command::Write(Value::Num(1)), Command::Write(Value::Num(2))],
                            if with_else {
                                Some(vec![Command::Write(Value::Num(3))])
                            } else {
                                None
                            },
                        ),
                        Command::Write(Value::Num(4)),
                    ],
                ),
            ));
            for (a, b) in [(0, 0), (0, 1), (1, 0), (5, 5), (5, 6), (6, 5), (0, 9), (9, 0)] {
                let expected = match (holds(&make(val("a"), val("b")), a, b), with_else) {
                    (true, _) => vec![1, 2, 4],
                    (false, true) => vec![3, 4],
                    (false, false) => vec![4],
                };
                assert_eq!(run(&text, &[a, b]), expected, "{a} {b} {with_else}");
            }
        }
    }
}

#[test]
fn machine_runs_a_loop_while_its_condition_holds() {
    // reads pairs in the body; leaves when the condition on the pair fails
    for make in conditions() {
        let text = compile((
            None,
            (
                Some(vec![scalar("a"), scalar("b")]),
                vec![
                    Command::Read(var("a")),
                    Command::Read(var("b")),
                    Command::While(
                        make(val("a"), val("b")),
                        vec![
                            Command::Write(val("a")),
                            Command::Read(var("a")),
                            Command::Read(var("b")),
                        ],
                    ),
                    Command::Write(Value::Num(99)),
                ],
            ),
        ));
        let pairs = [(3, 3), (3, 4), (4, 3), (0, 0), (0, 1), (1, 0), (7, 7), (2, 9), (9, 2)];
        for first in 0..pairs.len() {
            let mut input = Vec::new();
            let mut expected = Vec::new();
            let mut stopped = false;
            for k in 0..pairs.len() + 6 {
                let (a, b) = if k < 4 {
                    pairs[(first + k) % pairs.len()]
                } else {
                    // a pair on which the condition fails, sooner or later
                    pairs[(k - 4) % 6]
                };
                input.extend([a, b]);
                if !stopped {
                    if holds(&make(val("a"), val("b")), a, b) {
                        expected.push(a);
                    } else {
                        stopped = true;
                    }
                }
            }
            assert!(stopped);
            expected.push(99);
            assert_eq!(run(&text, &input), expected);
        }
    }
}

#[test]
fn machine_repeats_a_loop_until_its_condition_holds() {
    for make in conditions() {
        let text = compile((
            None,
            (
                Some(vec![scalar("a"), scalar("b")]),
                vec![
                    Command::Write(Value::Num(77)),
                    Command::Repeat(
                        vec![
                            Command::Read(var("a")),
                            Command::Read(var("b")),
                            Command::Write(val("b")),
                        ],
                        make(val("a"), val("b")),
                    ),
                    Command::Write(Value::Num(99)),
                ],
            ),
        ));
        let pairs = [(3, 3), (3, 4), (4, 3), (0, 0), (0, 1), (1, 0), (7, 7), (2, 9), (9, 2)];
        for first in 0..pairs.len() {
            let mut input = Vec::new();
            let mut expected = vec![77];
            let mut stopped = false;
            for k in 0..pairs.len() + 6 {
                let (a, b) = if k < 4 {
                    pairs[(first + k) % pairs.len()]
                } else {
                    pairs[(k - 4) % 6]
                };
                input.extend([a, b]);
                if !stopped {
                    expected.push(b);
                    if holds(&make(val("a"), val("b")), a, b) {
                        stopped = true;
                    }
                }
            }
            assert!(stopped);
            expected.push(99);
            assert_eq!(run(&text, &input), expected);
        }
    }
}

#[test]
fn machine_counts_down() {
    let text = compile((
        None,
        (
            Some(vec![scalar("n")]),
            vec![
                Command::Read(var("n")),
                Command::While(
                    Condition::Greater(val("n"), Value::Num(0)),
                    vec![
                        Command::Write(val("n")),
                        Command::Assign(var("n"), Expression::Substract(val("n"), Value::Num(1))),
                    ],
                ),
            ],
        ),
    ));
    assert_eq!(run(&text, &[4]), vec![4, 3, 2, 1]);
    assert_eq!(run(&text, &[0]), Vec::<u64>::new());
}

#[test]
fn machine_passes_variables_by_reference() {
    let swap: Procedure = (
        (
            name("swap"),
            vec![
                ArgumentsDeclarationVariant::Base(name("x")),
                ArgumentsDeclarationVariant::Base(name("y")),
            ],
        ),
        Some(vec![scalar("t")]),
        vec![
            Command::Assign(var("t"), Expression::Val(val("x"))),
            Command::Assign(var("x"), Expression::Val(val("y"))),
            Command::Assign(var("y"), Expression::Val(val("t"))),
        ],
    );
    let sort: Procedure = (
        (
            name("sort"),
            vec![
                ArgumentsDeclarationVariant::Table(name("v")),
                ArgumentsDeclarationVariant::Base(name("n")),
            ],
        ),
        Some(vec![scalar("i"), scalar("j"), scalar("a"), scalar("b")]),
        vec![
            Command::Assign(var("i"), Expression::Val(Value::Num(0))),
            Command::While(
                Condition::Lower(val("i"), val("n")),
                vec![
                    Command::Assign(var("j"), Expression::Add(val("i"), Value::Num(1))),
                    Command::While(
                        Condition::Lower(val("j"), val("n")),
                        vec![
                            Command::Assign(
                                var("a"),
                                Expression::Val(Value::Id(Identifier::PidIndexed(
                                    name("v"),
                                    name("i"),
                                ))),
                            ),
                            Command::Assign(
                                var("b"),
                                Expression::Val(Value::Id(Identifier::PidIndexed(
                                    name("v"),
                                    name("j"),
                                ))),
                            ),
                            Command::If(
                                Condition::Greater(val("a"), val("b")),
                                vec![
                                    Command::ProcCall((name("swap"), vec![name("a"), name("b")])),
                                    Command::Assign(
                                        Identifier::PidIndexed(name("v"), name("i")),
                                        Expression::Val(val("a")),
                                    ),
                                    Command::Assign(
                                        Identifier::PidIndexed(name("v"), name("j")),
                                        Expression::Val(val("b")),
                                    ),
                                ],
                                None,
                            ),
                            Command::Assign(var("j"), Expression::Add(val("j"), Value::Num(1))),
                        ],
                    ),
                    Command::Assign(var("i"), Expression::Add(val("i"), Value::Num(1))),
                ],
            ),
        ],
    );
    let text = compile((
        Some(vec![swap, sort]),
        (
            Some(vec![
                scalar("count"),
                DeclarationVariant::NumIndexed(name("data"), 6),
                scalar("k"),
            ]),
            vec![
                Command::Assign(var("count"), Expression::Val(Value::Num(6))),
                Command::Assign(var("k"), Expression::Val(Value::Num(0))),
                Command::Repeat(
                    vec![
                        Command::Read(Identifier::PidIndexed(name("data"), name("k"))),
                        Command::Assign(var("k"), Expression::Add(val("k"), Value::Num(1))),
                    ],
                    Condition::GreaterOrEqual(val("k"), val("count")),
                ),
                Command::ProcCall((name("sort"), vec![name("data"), name("count")])),
                Command::Assign(var("k"), Expression::Val(Value::Num(0))),
                Command::While(
                    Condition::NotEqual(val("k"), val("count")),
                    vec![
                        Command::Write(Value::Id(Identifier::PidIndexed(name("data"), name("k")))),
                        Command::Assign(var("k"), Expression::Add(val("k"), Value::Num(1))),
                    ],
                ),
                Command::Write(Value::Id(Identifier::NumIndexed(name("data"), 5))),
            ],
        ),
    ));
    assert_eq!(run(&text, &[5, 3, 9, 1, 3, 0]), vec![0, 1, 3, 3, 5, 9, 9]);
    assert_eq!(run(&text, &[6, 5, 4, 3, 2, 1]), vec![1, 2, 3, 4, 5, 6, 6]);
}

#[test]
fn machine_increments_the_argument_of_a_call() {
    let increment: Procedure = (
        (name("p"), vec![ArgumentsDeclarationVariant::Base(name("x"))]),
        None,
        vec![Command::Assign(var("x"), Expression::Add(val("x"), Value::Num(1)))],
    );
    let text = compile((
        Some(vec![increment]),
        (
            Some(vec![scalar("y")]),
            vec![
                Command::Assign(var("y"), Expression::Val(Value::Num(5))),
                Command::ProcCall((name("p"), vec![name("y")])),
                Command::Write(val("y")),
            ],
        ),
    ));
    assert_eq!(run(&text, &[]), vec![6]);
}
