//! What the user is told: the message of an error or a warning, and the line
//! of the source text that a byte offset falls on, which is 1 more than the
//! number of line feeds before the byte.
use crate::error::{CompilerError, ErrorModel};
use crate::names::{visible, visible_name};
use crate::text::{decimal, write_decimal};
use vstd::prelude::*;
use vstd::string::StringExecFns;

verus! {

/// What a message says of the kind of an error.
pub open spec fn kind_text(error: ErrorModel) -> Seq<char> {
    match error {
        ErrorModel::UndeclaredVariable(_, _) => "Undeclared variable"@,
        ErrorModel::UndeclaredProcedure(_, _) => "Undeclared procedure"@,
        ErrorModel::IncorrectUseOfVariable(_, _) => "Incorrect use of variable"@,
        ErrorModel::IndexOutOfBounds(_, _) => "Index out of bounds for variable"@,
        ErrorModel::ArrayUsedAsIndex(_, _) => "Array used as index for variable"@,
        ErrorModel::WrongArgumentType(_, _) => "Wrong argument type for variable"@,
        ErrorModel::DuplicateVariableDeclaration(
            _,
            _,
        ) => "Duplicate variable declaration for variable"@,
        ErrorModel::DuplicateProcedureDeclaration(
            _,
            _,
        ) => "Duplicate procedure declaration for procedure"@,
        ErrorModel::RecursiveProcedureCall(_, _) => "Recursive procedure call for procedure"@,
        ErrorModel::WrongNumberOfArguments(_, _) => "Wrong number of arguments for procedure"@,
    }
}

/// The message for an error that was met on line `line` of the source text:
/// the kind of the error, the name as the user wrote it, and the line.
pub open spec fn error_text(error: ErrorModel, line: nat) -> Seq<char> {
    "ERROR: "@ + kind_text(error) + " `"@ + visible(error.name()) + "` line: "@ + decimal(line)
}

/// The message for a variable that is used before it has a value.
pub open spec fn warning_text(name: Seq<char>) -> Seq<char> {
    "Warning: Variable "@ + name + " used before initialisation"@
}

impl CompilerError {
    /// The message for this error, met on line `line` of the source text.
    pub fn message(&self, line: usize) -> (text: String)
        ensures
            text@ == error_text(self@, line as nat),
    {
        let kind = match self {
            CompilerError::UndeclaredVariable(_, _) => "Undeclared variable",
            CompilerError::UndeclaredProcedure(_, _) => "Undeclared procedure",
            CompilerError::IncorrectUseOfVariable(_, _) => "Incorrect use of variable",
            CompilerError::IndexOutOfBounds(_, _) => "Index out of bounds for variable",
            CompilerError::ArrayUsedAsIndex(_, _) => "Array used as index for variable",
            CompilerError::WrongArgumentType(_, _) => "Wrong argument type for variable",
            CompilerError::DuplicateVariableDeclaration(
                _,
                _,
            ) => "Duplicate variable declaration for variable",
            CompilerError::DuplicateProcedureDeclaration(
                _,
                _,
            ) => "Duplicate procedure declaration for procedure",
            CompilerError::RecursiveProcedureCall(_, _) => "Recursive procedure call for procedure",
            CompilerError::WrongNumberOfArguments(
                _,
                _,
            ) => "Wrong number of arguments for procedure",
        };
        let shown = visible_name(self.get_name());
        let mut text = String::from_str("ERROR: ");
        text.append(kind);
        text.append(" `");
        text.append(shown.as_str());
        text.append("` line: ");
        write_decimal(&mut text, line as u64);
        text
    }
}

/// The message for the variable `name`, used before it has a value.
pub fn warning_message(name: &String) -> (text: String)
    ensures
        text@ == warning_text(name@),
{
    let mut text = String::from_str("Warning: Variable ");
    text.append(name.as_str());
    text.append(" used before initialisation");
    text
}

/// The bytes of the first `count` lines, each with the line feed that ends
/// it.
pub open spec fn bytes_through(lengths: Seq<usize>, count: nat) -> nat
    decreases count,
{
    if count == 0 || count > lengths.len() {
        0
    } else {
        bytes_through(lengths, (count - 1) as nat) + lengths[count - 1] as nat + 1
    }
}

/// Whether byte offset `offset`, counted from 0, falls on line `line`,
/// counted from 1: the byte lies behind the lines before `line` and within
/// `line` or on the line feed that ends it. The line is then 1 more than the
/// number of line feeds before the byte.
pub open spec fn falls_on(lengths: Seq<usize>, offset: usize, line: nat) -> bool {
    &&& 1 <= line <= lengths.len()
    &&& bytes_through(lengths, (line - 1) as nat) <= offset < bytes_through(lengths, line)
}

/// The line, counted from 1, of a text whose lines have the given lengths
/// that byte offset `n` falls on, or `None` if the text has no line or ends
/// before that byte.
pub fn find_line_number(lengths: &Vec<usize>, n: usize) -> (line: Option<usize>)
    ensures
        match line {
            Some(found) => falls_on(lengths@, n, found as nat),
            None => lengths.len() == 0 || bytes_through(lengths@, lengths.len() as nat) <= n,
        },
{
    let mut remaining: usize = n;
    let mut i: usize = 0;
    while i < lengths.len()
        invariant
            i <= lengths.len(),
            remaining + bytes_through(lengths@, i as nat) == n,
        decreases lengths.len() - i,
    {
        if lengths[i] >= remaining {
            return Some(i + 1);
        }
        remaining = remaining - lengths[i] - 1;
        i += 1;
    }
    None
}

/// The bytes of the text grow with the lines.
pub proof fn lemma_bytes_through_grows(lengths: Seq<usize>, fewer: nat, more: nat)
    requires
        fewer <= more <= lengths.len(),
    ensures
        bytes_through(lengths, fewer) <= bytes_through(lengths, more),
        fewer < more ==> bytes_through(lengths, fewer) < bytes_through(lengths, more),
    decreases more,
{
    if fewer < more {
        lemma_bytes_through_grows(lengths, fewer, (more - 1) as nat);
    }
}

/// A byte falls on one line at most, and on one exactly if the text has not
/// ended before it.
pub proof fn lemma_falls_on_one_line(lengths: Seq<usize>, offset: usize, first: nat, second: nat)
    requires
        falls_on(lengths, offset, first),
    ensures
        offset < bytes_through(lengths, lengths.len()),
        falls_on(lengths, offset, second) ==> first == second,
{
    lemma_bytes_through_grows(lengths, first, lengths.len());
    if falls_on(lengths, offset, second) {
        if first < second {
            lemma_bytes_through_grows(lengths, first, (second - 1) as nat);
        } else if second < first {
            lemma_bytes_through_grows(lengths, second, (first - 1) as nat);
        }
    }
}

/// The byte that ends a line.
pub const LINE_FEED: u8 = 10;

/// The number of line feeds among the first `count` bytes of `text`.
pub open spec fn line_feeds(text: Seq<u8>, count: nat) -> nat
    decreases count,
{
    if count == 0 || count > text.len() {
        0
    } else {
        line_feeds(text, (count - 1) as nat) + if text[count - 1] == LINE_FEED {
            1nat
        } else {
            0nat
        }
    }
}

/// The text of the first `count` lines, each with the line feed that ends
/// it.
pub open spec fn joined(lines: Seq<Seq<u8>>, count: nat) -> Seq<u8>
    decreases count,
{
    if count == 0 || count > lines.len() {
        Seq::empty()
    } else {
        joined(lines, (count - 1) as nat) + lines[count - 1] + seq![LINE_FEED]
    }
}

/// The lengths of the lines.
pub open spec fn lengths_of(lines: Seq<Seq<u8>>) -> Seq<usize> {
    Seq::new(lines.len(), |i: int| lines[i].len() as usize)
}

/// Whether the lines are lines: none holds a line feed, and each has a
/// length that a machine word holds.
pub open spec fn are_lines(lines: Seq<Seq<u8>>) -> bool {
    forall|i: int|
        0 <= i < lines.len() ==> (#[trigger] lines[i]).len() <= usize::MAX && forall|j: int|
            0 <= j < lines[i].len() ==> lines[i][j] != LINE_FEED
}

/// The line feeds among the first bytes of a text are those among the first
/// bytes of any longer text that begins with it.
proof fn lemma_line_feeds_prefix(text: Seq<u8>, more: Seq<u8>, count: nat)
    requires
        count <= text.len(),
    ensures
        line_feeds(text + more, count) == line_feeds(text, count),
    decreases count,
{
    if count > 0 {
        lemma_line_feeds_prefix(text, more, (count - 1) as nat);
        assert((text + more)[count - 1] == text[count - 1]);
    }
}

/// Behind a text, the line feeds of what follows are added to its own.
proof fn lemma_line_feeds_behind(text: Seq<u8>, more: Seq<u8>, count: nat)
    requires
        count <= more.len(),
    ensures
        line_feeds(text + more, text.len() + count) == line_feeds(text, text.len())
            + line_feeds(more, count),
    decreases count,
{
    if count == 0 {
        lemma_line_feeds_prefix(text, more, text.len());
    } else {
        lemma_line_feeds_behind(text, more, (count - 1) as nat);
        assert((text + more)[text.len() + count - 1] == more[count - 1]);
    }
}

/// A line holds no line feed.
proof fn lemma_line_feeds_of_line(line: Seq<u8>, count: nat)
    requires
        count <= line.len(),
        forall|j: int| 0 <= j < line.len() ==> line[j] != LINE_FEED,
    ensures
        line_feeds(line, count) == 0,
    decreases count,
{
    if count > 0 {
        lemma_line_feeds_of_line(line, (count - 1) as nat);
    }
}

/// The text of the first lines has the bytes that their lengths add up to,
/// one line feed for every line, and is the beginning of the text of all
/// lines.
proof fn lemma_joined(lines: Seq<Seq<u8>>, count: nat)
    requires
        are_lines(lines),
        count <= lines.len(),
    ensures
        joined(lines, count).len() == bytes_through(lengths_of(lines), count),
        line_feeds(joined(lines, count), joined(lines, count).len()) == count,
        joined(lines, count) == joined(lines, lines.len()).take(joined(lines, count).len() as int),
    decreases lines.len() - count,
{
    lemma_joined_length(lines, count);
    lemma_joined_feeds(lines, count);
    if count == lines.len() {
        assert(joined(lines, count).take(joined(lines, count).len() as int) =~= joined(
            lines,
            count,
        ));
    } else {
        lemma_joined(lines, count + 1);
        let next = joined(lines, count + 1);
        let all = joined(lines, lines.len());
        assert(next == joined(lines, count) + lines[count as int] + seq![LINE_FEED]);
        let short = joined(lines, count).len() as int;
        lemma_joined_length(lines, count + 1);
        lemma_joined_length(lines, lines.len());
        lemma_bytes_through_grows(lengths_of(lines), count + 1, lines.len());
        assert(joined(lines, count) =~= next.take(short));
        assert(all.take(next.len() as int).take(short) =~= all.take(short));
    }
}

/// The text of the first lines has the bytes that their lengths add up to.
proof fn lemma_joined_length(lines: Seq<Seq<u8>>, count: nat)
    requires
        are_lines(lines),
        count <= lines.len(),
    ensures
        joined(lines, count).len() == bytes_through(lengths_of(lines), count),
    decreases count,
{
    if count > 0 {
        lemma_joined_length(lines, (count - 1) as nat);
    }
}

/// The text of the first lines has one line feed for every line.
proof fn lemma_joined_feeds(lines: Seq<Seq<u8>>, count: nat)
    requires
        are_lines(lines),
        count <= lines.len(),
    ensures
        line_feeds(joined(lines, count), joined(lines, count).len()) == count,
    decreases count,
{
    if count > 0 {
        let before = joined(lines, (count - 1) as nat);
        let line = lines[count - 1];
        lemma_joined_feeds(lines, (count - 1) as nat);
        lemma_line_feeds_of_line(line, line.len());
        lemma_line_feeds_behind(before, line, line.len());
        let text = joined(lines, count);
        assert(text == before + line + seq![LINE_FEED]);
        assert(text.drop_last() =~= before + line);
        assert(text[text.len() - 1] == LINE_FEED);
        lemma_line_feeds_prefix(before + line, seq![LINE_FEED], (before + line).len());
    }
}

/// The line that a byte of a text falls on is 1 more than the number of
/// line feeds before the byte: where the text is made of lines, each ended by
/// a line feed, and `offset` falls on `line` by the lengths of the lines,
/// the byte is in the text and `line - 1` line feeds stand before it.
pub proof fn lemma_line_counts_line_feeds(lines: Seq<Seq<u8>>, offset: usize, line: nat)
    requires
        are_lines(lines),
        falls_on(lengths_of(lines), offset, line),
    ensures
        offset < joined(lines, lines.len()).len(),
        line == 1 + line_feeds(joined(lines, lines.len()), offset as nat),
{
    let all = joined(lines, lines.len());
    let before = joined(lines, (line - 1) as nat);
    let this = lines[line - 1];
    let through = joined(lines, line);
    lemma_joined(lines, (line - 1) as nat);
    lemma_joined(lines, line);
    lemma_joined(lines, lines.len());
    lemma_bytes_through_grows(lengths_of(lines), line, lines.len());
    let within = (offset - before.len()) as nat;
    assert(within <= this.len());
    assert(through == before + this + seq![LINE_FEED]);
    assert(through =~= before + (this + seq![LINE_FEED]));
    lemma_line_feeds_of_line(this, within);
    lemma_line_feeds_prefix(this, seq![LINE_FEED], within);
    lemma_line_feeds_behind(before, this + seq![LINE_FEED], within);
    assert(line_feeds(through, offset as nat) == line - 1);
    let rest = all.skip(through.len() as int);
    assert(all =~= through + rest);
    lemma_line_feeds_prefix(through, rest, offset as nat);
}

} // verus!
