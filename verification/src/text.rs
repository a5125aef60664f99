//! The final program: every pseudo-instruction becomes one or more lines,
//! every jump gets the number of the line that it goes to, and the lines are
//! written out as text.
//!
//! A line is an instruction that takes a single line and whose jump, if it is
//! one, holds the number of a line, counted from 0, in place of an offset.
use crate::instruction::{
    bounded, closed, lemma_width_concat, lemma_width_take, line_of, width, Instruction, Register,
    DIV_WIDTH, MOD_WIDTH, MUL_WIDTH,
};
use vstd::prelude::*;
use vstd::string::StringExecFns;

verus! {

/// The lines of the multiplication block that begins on line `at`. It
/// expects the factors in `B` and `C` and leaves the product in `A`, adding
/// `B` for every set bit of `C` while `B` doubles and `C` halves.
pub open spec fn mul_lines(at: int) -> Seq<Instruction> {
    seq![
        Instruction::Put(Register::E),
        Instruction::Rst(Register::D),
        Instruction::Get(Register::C),
        Instruction::Jzero((at + 17) as i64),
        Instruction::Shr(Register::E),
        Instruction::Shl(Register::E),
        Instruction::Get(Register::C),
        Instruction::Sub(Register::E),
        Instruction::Jzero((at + 12) as i64),
        Instruction::Get(Register::D),
        Instruction::Add(Register::B),
        Instruction::Put(Register::D),
        Instruction::Shl(Register::B),
        Instruction::Shr(Register::C),
        Instruction::Get(Register::C),
        Instruction::Put(Register::E),
        Instruction::Jump((at + 2) as i64),
        Instruction::Get(Register::D),
    ]
}

/// The lines of the division block that begins on line `at`. It expects the
/// dividend in `B` and the divisor in `C` and leaves the quotient in `A`, 0
/// for the divisor 0.
pub open spec fn div_lines(at: int) -> Seq<Instruction> {
    seq![
        Instruction::Rst(Register::D),
        Instruction::Jzero((at + 22) as i64),
        Instruction::Get(Register::C),
        Instruction::Sub(Register::B),
        Instruction::Jpos((at + 22) as i64),
        Instruction::Get(Register::C),
        Instruction::Put(Register::E),
        Instruction::Rst(Register::F),
        Instruction::Inc(Register::F),
        Instruction::Get(Register::E),
        Instruction::Sub(Register::B),
        Instruction::Jpos((at + 21) as i64),
        Instruction::Get(Register::B),
        Instruction::Sub(Register::E),
        Instruction::Put(Register::B),
        Instruction::Get(Register::D),
        Instruction::Add(Register::F),
        Instruction::Put(Register::D),
        Instruction::Shl(Register::E),
        Instruction::Shl(Register::F),
        Instruction::Jump((at + 9) as i64),
        Instruction::Jump((at + 2) as i64),
        Instruction::Get(Register::D),
    ]
}

/// The lines of the remainder block that begins on line `at`. It expects the
/// dividend in `B` and the divisor in `C` and leaves the remainder in `A`, 0
/// for the divisor 0.
pub open spec fn mod_lines(at: int) -> Seq<Instruction> {
    seq![
        Instruction::Rst(Register::D),
        Instruction::Jzero((at + 22) as i64),
        Instruction::Get(Register::C),
        Instruction::Sub(Register::B),
        Instruction::Jpos((at + 23) as i64),
        Instruction::Get(Register::C),
        Instruction::Put(Register::E),
        Instruction::Rst(Register::F),
        Instruction::Inc(Register::F),
        Instruction::Get(Register::E),
        Instruction::Sub(Register::B),
        Instruction::Jpos((at + 21) as i64),
        Instruction::Get(Register::B),
        Instruction::Sub(Register::E),
        Instruction::Put(Register::B),
        Instruction::Get(Register::D),
        Instruction::Add(Register::F),
        Instruction::Put(Register::D),
        Instruction::Shl(Register::E),
        Instruction::Shl(Register::F),
        Instruction::Jump((at + 9) as i64),
        Instruction::Jump((at + 2) as i64),
        Instruction::Rst(Register::B),
        Instruction::Get(Register::B),
    ]
}

/// The lines that one pseudo-instruction becomes when it begins on line
/// `at`: a jump goes to the line that lies its offset away from `at`, an
/// arithmetic block is written out, and every other instruction is its own
/// line.
pub open spec fn instruction_lines(instruction: Instruction, at: int) -> Seq<Instruction> {
    match instruction {
        Instruction::Jump(offset) => seq![Instruction::Jump((at + offset) as i64)],
        Instruction::Jpos(offset) => seq![Instruction::Jpos((at + offset) as i64)],
        Instruction::Jzero(offset) => seq![Instruction::Jzero((at + offset) as i64)],
        Instruction::Mul => mul_lines(at),
        Instruction::Div => div_lines(at),
        Instruction::Mod => mod_lines(at),
        _ => seq![instruction],
    }
}

/// The lines of a run of pseudo-instructions that begins on line `at`.
pub open spec fn lines_from(code: Seq<Instruction>, at: int) -> Seq<Instruction>
    decreases code.len(),
{
    if code.len() == 0 {
        Seq::empty()
    } else {
        lines_from(code.drop_last(), at) + instruction_lines(
            code.last(),
            at + width(code.drop_last()),
        )
    }
}

/// The lines of a whole program.
pub open spec fn program_lines(code: Seq<Instruction>) -> Seq<Instruction> {
    lines_from(code, 0)
}

/// The letter that stands for a register.
pub open spec fn register_letter(register: Register) -> char {
    match register {
        Register::A => 'a',
        Register::B => 'b',
        Register::C => 'c',
        Register::D => 'd',
        Register::E => 'e',
        Register::F => 'f',
        Register::G => 'g',
        Register::H => 'h',
    }
}

/// The character of a decimal digit.
pub open spec fn digit(value: nat) -> char {
    if value == 0 {
        '0'
    } else if value == 1 {
        '1'
    } else if value == 2 {
        '2'
    } else if value == 3 {
        '3'
    } else if value == 4 {
        '4'
    } else if value == 5 {
        '5'
    } else if value == 6 {
        '6'
    } else if value == 7 {
        '7'
    } else if value == 8 {
        '8'
    } else {
        '9'
    }
}

/// A number in decimal, without leading zeros.
pub open spec fn decimal(value: nat) -> Seq<char>
    decreases value,
{
    if value < 10 {
        seq![digit(value)]
    } else {
        decimal(value / 10).push(digit(value % 10))
    }
}

/// The word that a line begins with.
pub open spec fn mnemonic(line: Instruction) -> Seq<char> {
    match line {
        Instruction::Read => "READ"@,
        Instruction::Write => "WRITE"@,
        Instruction::Load(_) => "LOAD"@,
        Instruction::Store(_) => "STORE"@,
        Instruction::Add(_) => "ADD"@,
        Instruction::Sub(_) => "SUB"@,
        Instruction::Get(_) => "GET"@,
        Instruction::Put(_) => "PUT"@,
        Instruction::Rst(_) => "RST"@,
        Instruction::Inc(_) => "INC"@,
        Instruction::Dec(_) => "DEC"@,
        Instruction::Shl(_) => "SHL"@,
        Instruction::Shr(_) => "SHR"@,
        Instruction::Jump(_) => "JUMP"@,
        Instruction::Jpos(_) => "JPOS"@,
        Instruction::Jzero(_) => "JZERO"@,
        Instruction::Halt => "HALT"@,
        Instruction::Mul => "MUL"@,
        Instruction::Div => "DIV"@,
        Instruction::Mod => "MOD"@,
    }
}

/// The register that a line names, if it names one.
pub open spec fn register_of(line: Instruction) -> Option<Register> {
    match line {
        Instruction::Load(r) => Some(r),
        Instruction::Store(r) => Some(r),
        Instruction::Add(r) => Some(r),
        Instruction::Sub(r) => Some(r),
        Instruction::Get(r) => Some(r),
        Instruction::Put(r) => Some(r),
        Instruction::Rst(r) => Some(r),
        Instruction::Inc(r) => Some(r),
        Instruction::Dec(r) => Some(r),
        Instruction::Shl(r) => Some(r),
        Instruction::Shr(r) => Some(r),
        _ => None,
    }
}

/// What follows the first word of a line: a space and the register, or a
/// space and the number of the line that a jump goes to, or nothing.
pub open spec fn operand_text(line: Instruction) -> Seq<char> {
    match register_of(line) {
        Some(register) => seq![' ', register_letter(register)],
        None => match line.offset() {
            Some(target) => if target >= 0 {
                seq![' '] + decimal(target as nat)
            } else {
                seq![' ', '-'] + decimal((-target) as nat)
            },
            None => Seq::empty(),
        },
    }
}

/// The text of one line, with the line feed that ends it.
pub open spec fn line_text(line: Instruction) -> Seq<char> {
    mnemonic(line) + operand_text(line) + seq!['\n']
}

/// The text of the first `count` of `lines`.
pub open spec fn text_of(lines: Seq<Instruction>, count: nat) -> Seq<char>
    decreases count,
{
    if count == 0 || count > lines.len() {
        Seq::empty()
    } else {
        text_of(lines, (count - 1) as nat) + line_text(lines[count - 1])
    }
}

/// The text of the program that `code` stands for.
pub open spec fn program_text(code: Seq<Instruction>) -> Seq<char> {
    text_of(program_lines(code), program_lines(code).len())
}

/// A pseudo-instruction becomes as many lines as its width says.
pub proof fn lemma_instruction_lines_len(instruction: Instruction, at: int)
    ensures
        instruction_lines(instruction, at).len() == instruction.width(),
{
}

/// A run of pseudo-instructions becomes as many lines as its width says.
pub proof fn lemma_lines_len(code: Seq<Instruction>, at: int)
    ensures
        lines_from(code, at).len() == width(code),
    decreases code.len(),
{
    if code.len() > 0 {
        lemma_lines_len(code.drop_last(), at);
        lemma_instruction_lines_len(code.last(), at + width(code.drop_last()));
    }
}

/// The lines of a concatenation are the lines of its parts.
pub proof fn lemma_lines_concat(a: Seq<Instruction>, b: Seq<Instruction>, at: int)
    ensures
        lines_from(a + b, at) == lines_from(a, at) + lines_from(b, at + width(a)),
    decreases b.len(),
{
    if b.len() == 0 {
        assert(a + b =~= a);
        assert(lines_from(a, at) + lines_from(b, at + width(a)) =~= lines_from(a, at));
    } else {
        lemma_lines_concat(a, b.drop_last(), at);
        lemma_width_concat(a, b.drop_last());
        assert((a + b).drop_last() =~= a + b.drop_last());
        assert((a + b).last() == b.last());
        assert(lines_from(a + b, at) =~= lines_from(a, at) + lines_from(b, at + width(a)));
    }
}

/// The lines of pseudo-instruction `i` stand where the widths of the
/// instructions before it put them.
pub proof fn lemma_lines_at(code: Seq<Instruction>, i: int)
    requires
        0 <= i < code.len(),
    ensures
        line_of(code, i) + code[i].width() <= program_lines(code).len(),
        program_lines(code).subrange(
            line_of(code, i) as int,
            (line_of(code, i) + code[i].width()) as int,
        ) == instruction_lines(code[i], line_of(code, i) as int),
{
    let head = code.take(i);
    let this = seq![code[i]];
    let tail = code.skip(i + 1);
    assert(code =~= head + this + tail);
    lemma_lines_concat(head + this, tail, 0);
    lemma_lines_concat(head, this, 0);
    lemma_lines_len(head, 0);
    lemma_lines_len(this, width(head) as int);
    lemma_lines_len(tail, width(head + this) as int);
    assert(this.drop_last() =~= Seq::<Instruction>::empty());
    assert(lines_from(this, width(head) as int) =~= instruction_lines(
        code[i],
        width(head) as int,
    ));
    lemma_instruction_lines_len(code[i], width(head) as int);
    assert(program_lines(code).subrange(
        line_of(code, i) as int,
        (line_of(code, i) + code[i].width()) as int,
    ) =~= instruction_lines(code[i], line_of(code, i) as int));
}

/// Every line takes a single line, and every jump of a line goes to a line
/// between `low` and `high`.
pub open spec fn targets_within(lines: Seq<Instruction>, low: int, high: int) -> bool {
    forall|j: int|
        0 <= j < lines.len() ==> !(#[trigger] lines[j]).is_block() && match lines[j].offset() {
            Some(target) => low <= target <= high,
            None => true,
        }
}

proof fn lemma_instruction_targets(instruction: Instruction, at: int, low: int, high: int)
    requires
        0 <= at,
        at + instruction.width() <= i64::MAX,
        low <= at,
        at + instruction.width() <= high,
        high <= i64::MAX,
        i64::MIN <= low,
        instruction.offset() matches Some(o) ==> low <= at + o <= high,
    ensures
        targets_within(instruction_lines(instruction, at), low, high),
{
}

proof fn lemma_targets_concat(a: Seq<Instruction>, b: Seq<Instruction>, low: int, high: int)
    requires
        targets_within(a, low, high),
        targets_within(b, low, high),
    ensures
        targets_within(a + b, low, high),
{
    assert forall|j: int| 0 <= j < (a + b).len() implies !(#[trigger] (a + b)[j]).is_block()
        && match (a + b)[j].offset() {
        Some(target) => low <= target <= high,
        None => true,
    } by {
        if j < a.len() {
            assert((a + b)[j] == a[j]);
        } else {
            assert((a + b)[j] == b[j - a.len()]);
        }
    }
}

/// If the jumps of `code` keep to the given bounds, the jumps of its lines
/// go to lines within them.
pub proof fn lemma_lines_targets(code: Seq<Instruction>, at: int, before: int, after: int)
    requires
        bounded(code, before, after),
        0 <= at,
        0 <= before,
        0 <= after,
        before <= at,
        at + width(code) + after <= i64::MAX,
    ensures
        targets_within(lines_from(code, at), at - before, at + width(code) + after),
    decreases code.len(),
{
    if code.len() > 0 {
        let head = code.drop_last();
        let last = code.last();
        let i = code.len() - 1;
        assert(code.take(i) =~= head);
        assert forall|j: int| 0 <= j < head.len() implies match (#[trigger] head[j]).offset() {
            Some(o) => -before <= line_of(head, j) + o <= width(head) + (after + last.width()),
            None => true,
        } by {
            assert(head[j] == code[j]);
            assert(head.take(j) =~= code.take(j));
        }
        lemma_lines_targets(head, at, before, after + last.width());
        assert(code[i] == last);
        lemma_instruction_targets(
            last,
            at + width(head),
            at - before,
            at + width(code) + after,
        );
        lemma_targets_concat(
            lines_from(head, at),
            instruction_lines(last, at + width(head)),
            at - before,
            at + width(code) + after,
        );
    }
}

/// Appends the multiplication block that begins on line `at`.
fn push_mul_block(lines: &mut Vec<Instruction>, at: i64)
    requires
        0 <= at <= i64::MAX - MUL_WIDTH,
    ensures
        final(lines)@ == old(lines)@ + mul_lines(at as int),
{
    lines.push(Instruction::Put(Register::E));
    lines.push(Instruction::Rst(Register::D));
    lines.push(Instruction::Get(Register::C));
    lines.push(Instruction::Jzero(at + 17));
    lines.push(Instruction::Shr(Register::E));
    lines.push(Instruction::Shl(Register::E));
    lines.push(Instruction::Get(Register::C));
    lines.push(Instruction::Sub(Register::E));
    lines.push(Instruction::Jzero(at + 12));
    lines.push(Instruction::Get(Register::D));
    lines.push(Instruction::Add(Register::B));
    lines.push(Instruction::Put(Register::D));
    lines.push(Instruction::Shl(Register::B));
    lines.push(Instruction::Shr(Register::C));
    lines.push(Instruction::Get(Register::C));
    lines.push(Instruction::Put(Register::E));
    lines.push(Instruction::Jump(at + 2));
    lines.push(Instruction::Get(Register::D));
    proof {
        assert(lines@ =~= old(lines)@ + mul_lines(at as int));
    }
}

/// Appends the division block that begins on line `at`.
fn push_div_block(lines: &mut Vec<Instruction>, at: i64)
    requires
        0 <= at <= i64::MAX - DIV_WIDTH,
    ensures
        final(lines)@ == old(lines)@ + div_lines(at as int),
{
    lines.push(Instruction::Rst(Register::D));
    lines.push(Instruction::Jzero(at + 22));
    lines.push(Instruction::Get(Register::C));
    lines.push(Instruction::Sub(Register::B));
    lines.push(Instruction::Jpos(at + 22));
    push_division_loop(lines, at);
    lines.push(Instruction::Get(Register::D));
    proof {
        assert(lines@ =~= old(lines)@ + div_lines(at as int));
    }
}

/// Appends the remainder block that begins on line `at`.
fn push_mod_block(lines: &mut Vec<Instruction>, at: i64)
    requires
        0 <= at <= i64::MAX - MOD_WIDTH,
    ensures
        final(lines)@ == old(lines)@ + mod_lines(at as int),
{
    lines.push(Instruction::Rst(Register::D));
    lines.push(Instruction::Jzero(at + 22));
    lines.push(Instruction::Get(Register::C));
    lines.push(Instruction::Sub(Register::B));
    lines.push(Instruction::Jpos(at + 23));
    push_division_loop(lines, at);
    lines.push(Instruction::Rst(Register::B));
    lines.push(Instruction::Get(Register::B));
    proof {
        assert(lines@ =~= old(lines)@ + mod_lines(at as int));
    }
}

/// The lines 5 to 21 of a division or remainder block that begins on line
/// `at`: the loop that subtracts the doubled divisors.
pub open spec fn division_loop_lines(at: int) -> Seq<Instruction> {
    seq![
        Instruction::Get(Register::C),
        Instruction::Put(Register::E),
        Instruction::Rst(Register::F),
        Instruction::Inc(Register::F),
        Instruction::Get(Register::E),
        Instruction::Sub(Register::B),
        Instruction::Jpos((at + 21) as i64),
        Instruction::Get(Register::B),
        Instruction::Sub(Register::E),
        Instruction::Put(Register::B),
        Instruction::Get(Register::D),
        Instruction::Add(Register::F),
        Instruction::Put(Register::D),
        Instruction::Shl(Register::E),
        Instruction::Shl(Register::F),
        Instruction::Jump((at + 9) as i64),
        Instruction::Jump((at + 2) as i64),
    ]
}

fn push_division_loop(lines: &mut Vec<Instruction>, at: i64)
    requires
        0 <= at <= i64::MAX - DIV_WIDTH,
    ensures
        final(lines)@ == old(lines)@ + division_loop_lines(at as int),
{
    lines.push(Instruction::Get(Register::C));
    lines.push(Instruction::Put(Register::E));
    lines.push(Instruction::Rst(Register::F));
    lines.push(Instruction::Inc(Register::F));
    lines.push(Instruction::Get(Register::E));
    lines.push(Instruction::Sub(Register::B));
    lines.push(Instruction::Jpos(at + 21));
    lines.push(Instruction::Get(Register::B));
    lines.push(Instruction::Sub(Register::E));
    lines.push(Instruction::Put(Register::B));
    lines.push(Instruction::Get(Register::D));
    lines.push(Instruction::Add(Register::F));
    lines.push(Instruction::Put(Register::D));
    lines.push(Instruction::Shl(Register::E));
    lines.push(Instruction::Shl(Register::F));
    lines.push(Instruction::Jump(at + 9));
    lines.push(Instruction::Jump(at + 2));
    proof {
        assert(lines@ =~= old(lines)@ + division_loop_lines(at as int));
    }
}

/// The lines of the program that `code` stands for: every jump gets the
/// number of the line that it goes to, and every arithmetic block is written
/// out.
pub fn resolve(code: &Vec<Instruction>) -> (lines: Vec<Instruction>)
    requires
        closed(code@),
        width(code@) <= i64::MAX,
    ensures
        lines@ == program_lines(code@),
{
    let mut lines: Vec<Instruction> = Vec::new();
    let mut i: usize = 0;
    while i < code.len()
        invariant
            i <= code.len(),
            closed(code@),
            width(code@) <= i64::MAX,
            lines@ == lines_from(code@.take(i as int), 0),
            lines.len() == width(code@.take(i as int)),
        decreases code.len() - i,
    {
        proof {
            assert(code@.take(i + 1).drop_last() =~= code@.take(i as int));
            lemma_width_take(code@, i + 1);
            lemma_width_take(code@, i as int);
            assert(code@[i as int].offset() matches Some(o) ==> 0 <= line_of(code@, i as int) + o
                <= width(code@));
        }
        let at: i64 = lines.len() as i64;
        let ghost before = lines@;
        match code[i] {
            Instruction::Jump(offset) => {
                lines.push(Instruction::Jump(at + offset));
            },
            Instruction::Jpos(offset) => {
                lines.push(Instruction::Jpos(at + offset));
            },
            Instruction::Jzero(offset) => {
                lines.push(Instruction::Jzero(at + offset));
            },
            Instruction::Mul => {
                push_mul_block(&mut lines, at);
            },
            Instruction::Div => {
                push_div_block(&mut lines, at);
            },
            Instruction::Mod => {
                push_mod_block(&mut lines, at);
            },
            other => {
                lines.push(other);
            },
        }
        proof {
            assert(lines@ =~= before + instruction_lines(code@[i as int], at as int));
        }
        i += 1;
    }
    proof {
        assert(code@.take(code.len() as int) =~= code@);
    }
    lines
}

/// The letter of a register, as text.
fn register_name(register: Register) -> (name: &'static str)
    ensures
        name@ == seq![register_letter(register)],
{
    proof {
        reveal_strlit("a");
        reveal_strlit("b");
        reveal_strlit("c");
        reveal_strlit("d");
        reveal_strlit("e");
        reveal_strlit("f");
        reveal_strlit("g");
        reveal_strlit("h");
    }
    let name = match register {
        Register::A => "a",
        Register::B => "b",
        Register::C => "c",
        Register::D => "d",
        Register::E => "e",
        Register::F => "f",
        Register::G => "g",
        Register::H => "h",
    };
    proof {
        assert(name@ =~= seq![register_letter(register)]);
    }
    name
}

/// A decimal digit, as text.
fn digit_name(value: u64) -> (name: &'static str)
    requires
        value < 10,
    ensures
        name@ == seq![digit(value as nat)],
{
    proof {
        reveal_strlit("0");
        reveal_strlit("1");
        reveal_strlit("2");
        reveal_strlit("3");
        reveal_strlit("4");
        reveal_strlit("5");
        reveal_strlit("6");
        reveal_strlit("7");
        reveal_strlit("8");
        reveal_strlit("9");
    }
    let name = if value == 0 {
        "0"
    } else if value == 1 {
        "1"
    } else if value == 2 {
        "2"
    } else if value == 3 {
        "3"
    } else if value == 4 {
        "4"
    } else if value == 5 {
        "5"
    } else if value == 6 {
        "6"
    } else if value == 7 {
        "7"
    } else if value == 8 {
        "8"
    } else {
        "9"
    };
    proof {
        assert(name@ =~= seq![digit(value as nat)]);
    }
    name
}

/// The word that a line begins with.
fn mnemonic_of(line: &Instruction) -> (word: &'static str)
    ensures
        word@ == mnemonic(*line),
{
    match line {
        Instruction::Read => "READ",
        Instruction::Write => "WRITE",
        Instruction::Load(_) => "LOAD",
        Instruction::Store(_) => "STORE",
        Instruction::Add(_) => "ADD",
        Instruction::Sub(_) => "SUB",
        Instruction::Get(_) => "GET",
        Instruction::Put(_) => "PUT",
        Instruction::Rst(_) => "RST",
        Instruction::Inc(_) => "INC",
        Instruction::Dec(_) => "DEC",
        Instruction::Shl(_) => "SHL",
        Instruction::Shr(_) => "SHR",
        Instruction::Jump(_) => "JUMP",
        Instruction::Jpos(_) => "JPOS",
        Instruction::Jzero(_) => "JZERO",
        Instruction::Halt => "HALT",
        Instruction::Mul => "MUL",
        Instruction::Div => "DIV",
        Instruction::Mod => "MOD",
    }
}

/// Appends `value` in decimal.
pub fn write_decimal(text: &mut String, value: u64)
    ensures
        final(text)@ == old(text)@ + decimal(value as nat),
    decreases value,
{
    if value >= 10 {
        write_decimal(text, value / 10);
    }
    text.append(digit_name(value % 10));
    proof {
        if value >= 10 {
            assert(final(text)@ =~= old(text)@ + decimal(value as nat));
        }
    }
}

/// Appends the text of `line`.
fn write_line(text: &mut String, line: &Instruction)
    ensures
        final(text)@ == old(text)@ + line_text(*line),
{
    proof {
        reveal_strlit(" ");
        reveal_strlit("-");
        reveal_strlit("\n");
    }
    let ghost start = text@;
    text.append(mnemonic_of(line));
    let register = match line {
        Instruction::Load(r) => Some(*r),
        Instruction::Store(r) => Some(*r),
        Instruction::Add(r) => Some(*r),
        Instruction::Sub(r) => Some(*r),
        Instruction::Get(r) => Some(*r),
        Instruction::Put(r) => Some(*r),
        Instruction::Rst(r) => Some(*r),
        Instruction::Inc(r) => Some(*r),
        Instruction::Dec(r) => Some(*r),
        Instruction::Shl(r) => Some(*r),
        Instruction::Shr(r) => Some(*r),
        _ => None,
    };
    let target = match line {
        Instruction::Jump(target) => Some(*target),
        Instruction::Jpos(target) => Some(*target),
        Instruction::Jzero(target) => Some(*target),
        _ => None,
    };
    match register {
        Some(r) => {
            text.append(" ");
            text.append(register_name(r));
        },
        None => match target {
            Some(target) => {
                text.append(" ");
                if target >= 0 {
                    write_decimal(text, target as u64);
                } else {
                    text.append("-");
                    write_decimal(text, (-(target + 1)) as u64 + 1);
                }
            },
            None => {},
        },
    }
    proof {
        assert(text@ =~= start + mnemonic(*line) + operand_text(*line));
    }
    text.append("\n");
    proof {
        assert(text@ =~= start + line_text(*line));
    }
}

/// The text of `lines`, one line after the other.
pub fn render(lines: &Vec<Instruction>) -> (text: String)
    ensures
        text@ == text_of(lines@, lines.len() as nat),
{
    let mut text = String::new();
    let mut i: usize = 0;
    while i < lines.len()
        invariant
            i <= lines.len(),
            text@ == text_of(lines@, i as nat),
        decreases lines.len() - i,
    {
        write_line(&mut text, &lines[i]);
        i += 1;
    }
    text
}

} // verus!
