//! Code for identifiers, values and expressions: the address of a variable,
//! the content of a value, or the result of an expression ends up in
//! register `A`.
use crate::ast::{
    name_model, Expression, ExpressionModel, Identifier, IdentifierModel, NameModel, Pidentifier,
    Value, ValueModel,
};
use crate::context::{Context, ContextModel};
use crate::error::{CompilerError, ErrorModel};
use crate::instruction::{
    block_free, join, jump_free, lemma_block_free_concat, lemma_jump_free_concat, Instruction,
    Register,
};
use crate::memory::{lookup, MemoryModel, VariableVariant};
use crate::number::{
    get_number, lemma_number_code_length, lemma_number_code_plain, lemma_number_code_short,
    lemma_pow2_65, number_code,
};
use vstd::prelude::*;

verus! {

/// The name of the variable that an identifier refers to.
pub open spec fn base_name(id: IdentifierModel) -> NameModel {
    match id {
        IdentifierModel::Base(name) => name,
        IdentifierModel::NumIndexed(name, _) => name,
        IdentifierModel::PidIndexed(name, _) => name,
    }
}

/// The code that leaves the address of `id` in register `A`, or the error
/// that `id` is rejected with.
///
/// A scalar has the address it was declared at. An array element with a
/// literal index has the address of the array plus the index, and the index
/// must lie within the array. With a variable as the index, the index is
/// fetched into `H` and added to the address of the array at run time.
pub open spec fn pointer_code(memory: MemoryModel, id: IdentifierModel) -> Result<
    Seq<Instruction>,
    ErrorModel,
> {
    match id {
        IdentifierModel::Base(name) => match lookup(memory, name.0) {
            None => Err(ErrorModel::UndeclaredVariable(name.0, name.1)),
            Some(VariableVariant::Atomic(address)) => Ok(number_code(address as nat)),
            Some(VariableVariant::Table(_, _)) => Err(
                ErrorModel::IncorrectUseOfVariable(name.0, name.1),
            ),
        },
        IdentifierModel::NumIndexed(name, index) => match lookup(memory, name.0) {
            None => Err(ErrorModel::UndeclaredVariable(name.0, name.1)),
            Some(VariableVariant::Atomic(_)) => Err(
                ErrorModel::IncorrectUseOfVariable(name.0, name.1),
            ),
            Some(VariableVariant::Table(start, size)) => if index >= size {
                Err(ErrorModel::IndexOutOfBounds(name.0, name.1))
            } else {
                Ok(number_code((start + index) as nat))
            },
        },
        IdentifierModel::PidIndexed(name, index) => match lookup(memory, index.0) {
            None => Err(ErrorModel::UndeclaredVariable(index.0, index.1)),
            Some(VariableVariant::Table(_, _)) => Err(
                ErrorModel::ArrayUsedAsIndex(name.0, name.1),
            ),
            Some(VariableVariant::Atomic(address)) => match lookup(memory, name.0) {
                None => Err(ErrorModel::UndeclaredVariable(name.0, name.1)),
                Some(VariableVariant::Atomic(_)) => Err(
                    ErrorModel::IncorrectUseOfVariable(name.0, name.1),
                ),
                Some(VariableVariant::Table(start, _)) => Ok(
                    number_code(address as nat) + seq![
                        Instruction::Load(Register::A),
                        Instruction::Put(Register::H),
                    ] + number_code(start as nat) + seq![Instruction::Add(Register::H)],
                ),
            },
        },
    }
}

/// The state after the address of `id` is asked for: a variable that serves
/// as an index is used, whether or not the identifier is accepted.
pub open spec fn pointer_noted(state: ContextModel, id: IdentifierModel) -> ContextModel {
    match id {
        IdentifierModel::PidIndexed(_, index) => state.used(index.0),
        _ => state,
    }
}

/// The code that leaves `value` in register `A`, or the error that `value` is
/// rejected with.
pub open spec fn value_code(memory: MemoryModel, value: ValueModel) -> Result<
    Seq<Instruction>,
    ErrorModel,
> {
    match value {
        ValueModel::Num(num) => Ok(number_code(num as nat)),
        ValueModel::Id(id) => match pointer_code(memory, id) {
            Ok(code) => Ok(code.push(Instruction::Load(Register::A))),
            Err(error) => Err(error),
        },
    }
}

/// The state after `value` is loaded.
pub open spec fn value_noted(state: ContextModel, value: ValueModel) -> ContextModel {
    match value {
        ValueModel::Num(_) => state,
        ValueModel::Id(id) => pointer_noted(state, id),
    }
}

/// The state after `value` is read as an operand of an expression: the
/// variable that it refers to is used.
pub open spec fn value_checked(state: ContextModel, value: ValueModel) -> ContextModel {
    match value {
        ValueModel::Num(_) => state,
        ValueModel::Id(id) => state.used(base_name(id).0),
    }
}

/// The operand that an expression loads first. A subtraction loads the
/// subtrahend first, every other operation its left operand.
pub open spec fn first_operand(expression: ExpressionModel) -> ValueModel {
    match expression {
        ExpressionModel::Val(a) => a,
        ExpressionModel::Add(a, _) => a,
        ExpressionModel::Substract(_, b) => b,
        ExpressionModel::Multiply(a, _) => a,
        ExpressionModel::Divide(a, _) => a,
        ExpressionModel::Modulo(a, _) => a,
    }
}

/// The operand that an expression loads second, if it has two.
pub open spec fn second_operand(expression: ExpressionModel) -> Option<ValueModel> {
    match expression {
        ExpressionModel::Val(_) => None,
        ExpressionModel::Add(_, b) => Some(b),
        ExpressionModel::Substract(a, _) => Some(a),
        ExpressionModel::Multiply(_, b) => Some(b),
        ExpressionModel::Divide(_, b) => Some(b),
        ExpressionModel::Modulo(_, b) => Some(b),
    }
}

/// The instructions that combine the first operand, in `B`, with the second,
/// in `A`, and leave the result in `A`.
pub open spec fn operation(expression: ExpressionModel) -> Seq<Instruction> {
    match expression {
        ExpressionModel::Val(_) => Seq::empty(),
        ExpressionModel::Add(_, _) => seq![Instruction::Add(Register::B)],
        ExpressionModel::Substract(_, _) => seq![Instruction::Sub(Register::B)],
        ExpressionModel::Multiply(_, _) => seq![Instruction::Put(Register::C), Instruction::Mul],
        ExpressionModel::Divide(_, _) => seq![Instruction::Put(Register::C), Instruction::Div],
        ExpressionModel::Modulo(_, _) => seq![Instruction::Put(Register::C), Instruction::Mod],
    }
}

/// Whether both operands are read before the first is loaded.
pub open spec fn reads_ahead(expression: ExpressionModel) -> bool {
    expression is Divide || expression is Modulo
}

/// The code that leaves the result of `expression` in register `A`, or the
/// error of the first operand, in the order of loading, that is rejected.
pub open spec fn expression_code(memory: MemoryModel, expression: ExpressionModel) -> Result<
    Seq<Instruction>,
    ErrorModel,
> {
    match value_code(memory, first_operand(expression)) {
        Err(error) => Err(error),
        Ok(first) => match second_operand(expression) {
            None => Ok(first),
            Some(operand) => match value_code(memory, operand) {
                Err(error) => Err(error),
                Ok(second) => Ok(
                    first + seq![Instruction::Put(Register::B)] + second + operation(expression),
                ),
            },
        },
    }
}

/// The state after the code of `expression` is made. Each operand is read
/// just before it is loaded, and the second only if the first was accepted;
/// a division or a remainder reads both before it loads the first.
pub open spec fn expression_noted(state: ContextModel, expression: ExpressionModel)
    -> ContextModel {
    let first = first_operand(expression);
    match second_operand(expression) {
        None => value_noted(value_checked(state, first), first),
        Some(second) => if reads_ahead(expression) {
            let loaded = value_noted(value_checked(value_checked(state, first), second), first);
            if value_code(state.memory, first) is Err {
                loaded
            } else {
                value_noted(loaded, second)
            }
        } else {
            let loaded = value_noted(value_checked(state, first), first);
            if value_code(state.memory, first) is Err {
                loaded
            } else {
                value_noted(value_checked(loaded, second), second)
            }
        },
    }
}

/// Whether a result of code generation is the expected one.
pub open spec fn yields(
    result: Result<Vec<Instruction>, CompilerError>,
    expected: Result<Seq<Instruction>, ErrorModel>,
) -> bool {
    match result {
        Ok(code) => expected == Ok::<Seq<Instruction>, ErrorModel>(code@),
        Err(error) => expected == Err::<Seq<Instruction>, ErrorModel>(error@),
    }
}

/// The longest code of an address.
pub const POINTER_CODE_MAX: usize = 261;

/// The longest code of a value.
pub const VALUE_CODE_MAX: usize = 262;

/// The longest code of an expression.
pub const EXPRESSION_CODE_MAX: usize = 527;

/// The code of an address holds neither a jump nor an arithmetic block, and
/// is short.
pub proof fn lemma_pointer_code_plain(memory: MemoryModel, id: IdentifierModel)
    requires
        pointer_code(memory, id) is Ok,
    ensures
        jump_free(pointer_code(memory, id)->Ok_0),
        block_free(pointer_code(memory, id)->Ok_0),
        pointer_code(memory, id)->Ok_0.len() <= POINTER_CODE_MAX,
{
    match id {
        IdentifierModel::Base(name) => {
            let address = lookup(memory, name.0)->0->Atomic_0;
            lemma_number_code_plain(address as nat);
            lemma_number_code_short(address);
        },
        IdentifierModel::NumIndexed(name, index) => {
            let start = lookup(memory, name.0)->0->Table_0;
            lemma_number_code_plain((start + index) as nat);
            if start + index <= u64::MAX {
                lemma_number_code_short((start + index) as u64);
            } else {
                lemma_long_number_code((start + index) as nat);
            }
        },
        IdentifierModel::PidIndexed(name, index) => {
            let address = lookup(memory, index.0)->0->Atomic_0;
            let start = lookup(memory, name.0)->0->Table_0;
            lemma_number_code_plain(address as nat);
            lemma_number_code_plain(start as nat);
            lemma_number_code_short(address);
            lemma_number_code_short(start);
            let a = number_code(address as nat);
            let b = seq![Instruction::Load(Register::A), Instruction::Put(Register::H)];
            let c = number_code(start as nat);
            let d = seq![Instruction::Add(Register::H)];
            lemma_jump_free_concat(a, b);
            lemma_jump_free_concat(a + b, c);
            lemma_jump_free_concat(a + b + c, d);
            lemma_block_free_concat(a, b);
            lemma_block_free_concat(a + b, c);
            lemma_block_free_concat(a + b + c, d);
        },
    }
}

/// The sum of two 64-bit numbers has at most 65 binary digits.
proof fn lemma_long_number_code(n: nat)
    requires
        n < 0x2_0000_0000_0000_0000,
    ensures
        number_code(n).len() <= 131,
{
    lemma_pow2_65();
    lemma_number_code_length(n, 65);
}

/// The code of a value holds neither a jump nor an arithmetic block, and is
/// short.
pub proof fn lemma_value_code_plain(memory: MemoryModel, value: ValueModel)
    requires
        value_code(memory, value) is Ok,
    ensures
        jump_free(value_code(memory, value)->Ok_0),
        block_free(value_code(memory, value)->Ok_0),
        value_code(memory, value)->Ok_0.len() <= VALUE_CODE_MAX,
{
    match value {
        ValueModel::Num(num) => {
            lemma_number_code_plain(num as nat);
            lemma_number_code_short(num);
        },
        ValueModel::Id(id) => {
            lemma_pointer_code_plain(memory, id);
            let code = pointer_code(memory, id)->Ok_0;
            lemma_jump_free_concat(code, seq![Instruction::Load(Register::A)]);
            lemma_block_free_concat(code, seq![Instruction::Load(Register::A)]);
            assert(code.push(Instruction::Load(Register::A)) =~= code + seq![
                Instruction::Load(Register::A),
            ]);
        },
    }
}

/// The code of an expression holds no jump, and is short.
pub proof fn lemma_expression_code_plain(memory: MemoryModel, expression: ExpressionModel)
    requires
        expression_code(memory, expression) is Ok,
    ensures
        jump_free(expression_code(memory, expression)->Ok_0),
        expression_code(memory, expression)->Ok_0.len() <= EXPRESSION_CODE_MAX,
{
    let first = first_operand(expression);
    lemma_value_code_plain(memory, first);
    match second_operand(expression) {
        None => {},
        Some(second) => {
            lemma_value_code_plain(memory, second);
            let a = value_code(memory, first)->Ok_0;
            let b = seq![Instruction::Put(Register::B)];
            let c = value_code(memory, second)->Ok_0;
            let d = operation(expression);
            lemma_jump_free_concat(a, b);
            lemma_jump_free_concat(a + b, c);
            lemma_jump_free_concat(a + b + c, d);
        },
    }
}

impl Context {
    /// Notes that `value` is read as an operand of an expression.
    pub fn check_if_initialised(&mut self, value: &Value)
        ensures
            final(self)@ == value_checked(old(self)@, value@),
    {
        match value {
            Value::Num(_) => {},
            Value::Id(identifier) => {
                let id = identifier_name(identifier);
                self.note_use(&id.0);
            },
        }
    }

    /// Puts the pointer to `identifier` into the `A` register. Sometimes uses
    /// the `H` register.
    pub fn get_pointer_from_identifier(&mut self, identifier: &Identifier) -> (code: Result<
        Vec<Instruction>,
        CompilerError,
    >)
        requires
            old(self)@.valid(),
        ensures
            final(self)@ == pointer_noted(old(self)@, identifier@),
            yields(code, pointer_code(old(self)@.memory, identifier@)),
    {
        match identifier {
            Identifier::Base(id) => {
                match self.lookup(&id.0) {
                    None => Err(CompilerError::UndeclaredVariable(id.0.clone(), id.1)),
                    Some(VariableVariant::Atomic(pointer)) => Ok(get_number(pointer)),
                    Some(VariableVariant::Table(_, _)) => Err(
                        CompilerError::IncorrectUseOfVariable(id.0.clone(), id.1),
                    ),
                }
            },
            Identifier::NumIndexed(id, num) => {
                match self.lookup(&id.0) {
                    None => Err(CompilerError::UndeclaredVariable(id.0.clone(), id.1)),
                    Some(VariableVariant::Atomic(_)) => Err(
                        CompilerError::IncorrectUseOfVariable(id.0.clone(), id.1),
                    ),
                    Some(VariableVariant::Table(start, size)) => {
                        if *num >= size {
                            Err(CompilerError::IndexOutOfBounds(id.0.clone(), id.1))
                        } else {
                            proof {
                                assert(self@.memory[id.0@].end() <= self@.cursor);
                            }
                            Ok(get_number(start + *num))
                        }
                    },
                }
            },
            Identifier::PidIndexed(id, index_id) => {
                self.note_use(&index_id.0);
                match self.lookup(&index_id.0) {
                    None => Err(CompilerError::UndeclaredVariable(index_id.0.clone(), index_id.1)),
                    Some(VariableVariant::Table(_, _)) => Err(
                        CompilerError::ArrayUsedAsIndex(id.0.clone(), id.1),
                    ),
                    Some(VariableVariant::Atomic(pointer)) => {
                        let mut instructions = get_number(pointer);
                        instructions.push(Instruction::Load(Register::A));
                        instructions.push(Instruction::Put(Register::H));
                        match self.lookup(&id.0) {
                            None => Err(CompilerError::UndeclaredVariable(id.0.clone(), id.1)),
                            Some(VariableVariant::Atomic(_)) => Err(
                                CompilerError::IncorrectUseOfVariable(id.0.clone(), id.1),
                            ),
                            Some(VariableVariant::Table(start, _)) => {
                                join(&mut instructions, get_number(start));
                                instructions.push(Instruction::Add(Register::H));
                                proof {
                                    assert(instructions@ =~= pointer_code(
                                        old(self)@.memory,
                                        identifier@,
                                    )->Ok_0);
                                }
                                Ok(instructions)
                            },
                        }
                    },
                }
            },
        }
    }

    /// Gets the `value` and puts it into the `A` register.
    pub fn extract_value(&mut self, value: &Value) -> (code: Result<
        Vec<Instruction>,
        CompilerError,
    >)
        requires
            old(self)@.valid(),
        ensures
            final(self)@ == value_noted(old(self)@, value@),
            yields(code, value_code(old(self)@.memory, value@)),
    {
        match value {
            Value::Num(num) => Ok(get_number(*num)),
            Value::Id(identifier) => {
                match self.get_pointer_from_identifier(identifier) {
                    Ok(mut sub_instructions) => {
                        sub_instructions.push(Instruction::Load(Register::A));
                        Ok(sub_instructions)
                    },
                    Err(error) => Err(error),
                }
            },
        }
    }

    /// Constructs expressions into pseudo-assembly.
    pub fn construct_expression(&mut self, expression: &Expression) -> (code: Result<
        Vec<Instruction>,
        CompilerError,
    >)
        requires
            old(self)@.valid(),
        ensures
            final(self)@ == expression_noted(old(self)@, expression@),
            yields(code, expression_code(old(self)@.memory, expression@)),
    {
        let (first, second, ahead) = match expression {
            Expression::Val(value) => {
                self.check_if_initialised(value);
                return self.extract_value(value);
            },
            Expression::Add(value_0, value_1) => (value_0, value_1, false),
            Expression::Substract(value_0, value_1) => (value_1, value_0, false),
            Expression::Multiply(value_0, value_1) => (value_0, value_1, false),
            Expression::Divide(value_0, value_1) => (value_0, value_1, true),
            Expression::Modulo(value_0, value_1) => (value_0, value_1, true),
        };
        self.check_if_initialised(first);
        if ahead {
            self.check_if_initialised(second);
        }
        let mut instructions = match self.extract_value(first) {
            Ok(code) => code,
            Err(error) => {
                return Err(error);
            },
        };
        instructions.push(Instruction::Put(Register::B));
        if !ahead {
            self.check_if_initialised(second);
        }
        match self.extract_value(second) {
            Ok(code) => {
                join(&mut instructions, code);
            },
            Err(error) => {
                return Err(error);
            },
        }
        match expression {
            Expression::Val(_) => {},
            Expression::Add(_, _) => {
                instructions.push(Instruction::Add(Register::B));
            },
            Expression::Substract(_, _) => {
                instructions.push(Instruction::Sub(Register::B));
            },
            Expression::Multiply(_, _) => {
                instructions.push(Instruction::Put(Register::C));
                instructions.push(Instruction::Mul);
            },
            Expression::Divide(_, _) => {
                instructions.push(Instruction::Put(Register::C));
                instructions.push(Instruction::Div);
            },
            Expression::Modulo(_, _) => {
                instructions.push(Instruction::Put(Register::C));
                instructions.push(Instruction::Mod);
            },
        }
        proof {
            assert(instructions@ =~= expression_code(old(self)@.memory, expression@)->Ok_0);
        }
        Ok(instructions)
    }
}

/// The name of the variable that `identifier` refers to.
pub fn identifier_name(identifier: &Identifier) -> (id: &Pidentifier)
    ensures
        name_model(*id) == base_name(identifier@),
{
    match identifier {
        Identifier::Base(id) => id,
        Identifier::NumIndexed(id, _) => id,
        Identifier::PidIndexed(id, _) => id,
    }
}

} // verus!
