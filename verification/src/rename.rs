//! Preparing a procedure for inlining: every name in its body is rewritten to
//! its fully-qualified form, the name followed by `@` and the procedure's
//! name. The rewriting looks at the text of the body alone.
use crate::ast::{
    command_model, commands_model, formals_model, name_model, names_model,
    optional_declarations_model, procedure_model, ArgumentModel, ArgumentsDeclarationVariant,
    Command, CommandModel, Commands, Condition, ConditionModel, DeclarationModel, Declarations,
    Expression, ExpressionModel, Identifier, IdentifierModel, NameModel, Pidentifier, Procedure,
    ProcedureModel, Value, ValueModel,
};
use crate::names::{qualified, qualify};
use vstd::prelude::*;

verus! {

/// The name, qualified by `owner`, at the same place of the source text.
pub open spec fn renamed_name(name: NameModel, owner: Seq<char>) -> NameModel {
    (qualified(name.0, owner), name.1)
}

/// The names, each qualified by `owner`.
pub open spec fn renamed_names(names: Seq<NameModel>, owner: Seq<char>) -> Seq<NameModel> {
    Seq::new(names.len(), |i: int| renamed_name(names[i], owner))
}

/// The identifier with its variable and, if it has one, its index variable
/// qualified by `owner`.
pub open spec fn renamed_identifier(id: IdentifierModel, owner: Seq<char>) -> IdentifierModel {
    match id {
        IdentifierModel::Base(name) => IdentifierModel::Base(renamed_name(name, owner)),
        IdentifierModel::NumIndexed(name, index) => IdentifierModel::NumIndexed(
            renamed_name(name, owner),
            index,
        ),
        IdentifierModel::PidIndexed(name, index) => IdentifierModel::PidIndexed(
            renamed_name(name, owner),
            renamed_name(index, owner),
        ),
    }
}

/// The value with its variables qualified by `owner`; a literal stays as it
/// is.
pub open spec fn renamed_value(value: ValueModel, owner: Seq<char>) -> ValueModel {
    match value {
        ValueModel::Num(num) => ValueModel::Num(num),
        ValueModel::Id(id) => ValueModel::Id(renamed_identifier(id, owner)),
    }
}

/// The condition with the variables of both sides qualified by `owner`.
pub open spec fn renamed_condition(condition: ConditionModel, owner: Seq<char>) -> ConditionModel {
    match condition {
        ConditionModel::Equal(a, b) => ConditionModel::Equal(
            renamed_value(a, owner),
            renamed_value(b, owner),
        ),
        ConditionModel::NotEqual(a, b) => ConditionModel::NotEqual(
            renamed_value(a, owner),
            renamed_value(b, owner),
        ),
        ConditionModel::Greater(a, b) => ConditionModel::Greater(
            renamed_value(a, owner),
            renamed_value(b, owner),
        ),
        ConditionModel::Lower(a, b) => ConditionModel::Lower(
            renamed_value(a, owner),
            renamed_value(b, owner),
        ),
        ConditionModel::GreaterOrEqual(a, b) => ConditionModel::GreaterOrEqual(
            renamed_value(a, owner),
            renamed_value(b, owner),
        ),
        ConditionModel::LowerOrEqual(a, b) => ConditionModel::LowerOrEqual(
            renamed_value(a, owner),
            renamed_value(b, owner),
        ),
    }
}

/// The expression with the variables of its operands qualified by `owner`.
pub open spec fn renamed_expression(expression: ExpressionModel, owner: Seq<char>)
    -> ExpressionModel {
    match expression {
        ExpressionModel::Val(a) => ExpressionModel::Val(renamed_value(a, owner)),
        ExpressionModel::Add(a, b) => ExpressionModel::Add(
            renamed_value(a, owner),
            renamed_value(b, owner),
        ),
        ExpressionModel::Substract(a, b) => ExpressionModel::Substract(
            renamed_value(a, owner),
            renamed_value(b, owner),
        ),
        ExpressionModel::Multiply(a, b) => ExpressionModel::Multiply(
            renamed_value(a, owner),
            renamed_value(b, owner),
        ),
        ExpressionModel::Divide(a, b) => ExpressionModel::Divide(
            renamed_value(a, owner),
            renamed_value(b, owner),
        ),
        ExpressionModel::Modulo(a, b) => ExpressionModel::Modulo(
            renamed_value(a, owner),
            renamed_value(b, owner),
        ),
    }
}

/// The command with every variable qualified by `owner`. The name of a called
/// procedure stays as it is; the arguments of the call are qualified.
pub open spec fn renamed_command(command: CommandModel, owner: Seq<char>) -> CommandModel
    decreases command,
{
    match command {
        CommandModel::Assign(id, expression) => CommandModel::Assign(
            renamed_identifier(id, owner),
            renamed_expression(expression, owner),
        ),
        CommandModel::If(condition, commands, otherwise) => CommandModel::If(
            renamed_condition(condition, owner),
            renamed_commands(commands, owner),
            match otherwise {
                Some(list) => Some(renamed_commands(list, owner)),
                None => None,
            },
        ),
        CommandModel::While(condition, commands) => CommandModel::While(
            renamed_condition(condition, owner),
            renamed_commands(commands, owner),
        ),
        CommandModel::Repeat(commands, condition) => CommandModel::Repeat(
            renamed_commands(commands, owner),
            renamed_condition(condition, owner),
        ),
        CommandModel::ProcCall(name, arguments) => CommandModel::ProcCall(
            name,
            renamed_names(arguments, owner),
        ),
        CommandModel::Read(id) => CommandModel::Read(renamed_identifier(id, owner)),
        CommandModel::Write(value) => CommandModel::Write(renamed_value(value, owner)),
    }
}

/// The commands, each with every variable qualified by `owner`.
pub open spec fn renamed_commands(commands: Seq<CommandModel>, owner: Seq<char>) -> Seq<
    CommandModel,
>
    decreases commands,
{
    Seq::new(
        commands.len(),
        |i: int|
            if 0 <= i < commands.len() {
                renamed_command(commands[i], owner)
            } else {
                arbitrary()
            },
    )
}

/// The model of a procedure that is ready for inlining.
pub struct BuilderModel {
    /// The procedure's name.
    pub name: Seq<char>,
    /// The formal parameters, under the names that the user wrote.
    pub formals: Seq<ArgumentModel>,
    /// The local declarations, under the names that the user wrote.
    pub locals: Option<Seq<DeclarationModel>>,
    /// The body, with every variable qualified by the procedure's name.
    pub commands: Seq<CommandModel>,
}

/// What a procedure of the program becomes when it is prepared for inlining.
pub open spec fn prepared(procedure: ProcedureModel) -> BuilderModel {
    BuilderModel {
        name: procedure.name.0,
        formals: procedure.formals,
        locals: procedure.locals,
        commands: renamed_commands(procedure.commands, procedure.name.0),
    }
}

/// A procedure that is ready for inlining.
#[derive(Debug)]
pub struct ProcedureBuilder {
    name: String,
    declared_arguments: Vec<ArgumentsDeclarationVariant>,
    declarations: Option<Declarations>,
    commands: Commands,
}

impl View for ProcedureBuilder {
    type V = BuilderModel;

    closed spec fn view(&self) -> BuilderModel {
        BuilderModel {
            name: self.name@,
            formals: formals_model(self.declared_arguments@),
            locals: optional_declarations_model(self.declarations),
            commands: commands_model(self.commands@),
        }
    }
}

impl ProcedureBuilder {
    /// Prepares `procedure` for inlining.
    pub fn new(procedure: Procedure) -> (builder: ProcedureBuilder)
        ensures
            builder@ == prepared(procedure_model(procedure)),
    {
        let (head, declarations, commands) = procedure;
        let (id, declared_arguments) = head;
        let (name, _) = id;
        let mut pb = ProcedureBuilder { name, declared_arguments, declarations, commands };
        pb.rename_commands();
        pb
    }

    /// The procedure's name.
    pub fn name(&self) -> (name: &String)
        ensures
            name@ == self@.name,
    {
        &self.name
    }

    /// The formal parameters, in the order of their declaration.
    pub fn declared_arguments(&self) -> (formals: &Vec<ArgumentsDeclarationVariant>)
        ensures
            formals_model(formals@) == self@.formals,
    {
        &self.declared_arguments
    }

    /// The local declarations, in the order of their declaration.
    pub fn declarations(&self) -> (locals: &Option<Declarations>)
        ensures
            optional_declarations_model(*locals) == self@.locals,
    {
        &self.declarations
    }

    /// The body, with every variable qualified by the procedure's name.
    pub fn commands(&self) -> (commands: &Commands)
        ensures
            commands_model(commands@) == self@.commands,
    {
        &self.commands
    }

    fn rename_commands(&mut self)
        ensures
            final(self).name == old(self).name,
            final(self).declared_arguments == old(self).declared_arguments,
            final(self).declarations == old(self).declarations,
            commands_model(final(self).commands@) == renamed_commands(
                commands_model(old(self).commands@),
                old(self).name@,
            ),
    {
        let new_commands = self.rename_list(&self.commands);
        self.commands = new_commands;
    }

    fn rename_list(&self, commands: &Vec<Command>) -> (renamed: Vec<Command>)
        ensures
            commands_model(renamed@) == renamed_commands(commands_model(commands@), self.name@),
        decreases commands,
    {
        let mut renamed: Vec<Command> = Vec::new();
        let mut i: usize = 0;
        while i < commands.len()
            invariant
                i <= commands.len(),
                renamed.len() == i,
                forall|j: int|
                    0 <= j < i ==> command_model(#[trigger] renamed@[j]) == renamed_command(
                        command_model(commands@[j]),
                        self.name@,
                    ),
            decreases commands.len() - i,
        {
            let command = self.rename_command(&commands[i]);
            renamed.push(command);
            i += 1;
        }
        proof {
            let expected = renamed_commands(commands_model(commands@), self.name@);
            assert(commands_model(renamed@) =~= expected);
        }
        renamed
    }

    fn rename_command(&self, command: &Command) -> (renamed: Command)
        ensures
            renamed@ == renamed_command(command@, self.name@),
        decreases command,
    {
        match command {
            Command::Assign(id, expression) => {
                let new_id = self.rename_indentifier(id);
                let new_expression = self.rename_expression(expression);
                Command::Assign(new_id, new_expression)
            },
            Command::If(condition, commands, else_commands) => {
                let new_condition = self.rename_condition(condition);
                let new_commands = self.rename_list(commands);
                let new_else_commands = match else_commands {
                    Some(list) => Some(self.rename_list(list)),
                    None => None,
                };
                Command::If(new_condition, new_commands, new_else_commands)
            },
            Command::While(condition, commands) => {
                let new_condition = self.rename_condition(condition);
                let new_commands = self.rename_list(commands);
                Command::While(new_condition, new_commands)
            },
            Command::Repeat(commands, condition) => {
                let new_condition = self.rename_condition(condition);
                let new_commands = self.rename_list(commands);
                Command::Repeat(new_commands, new_condition)
            },
            Command::ProcCall(call) => {
                let mut new_arguments: Vec<Pidentifier> = Vec::new();
                let mut i: usize = 0;
                while i < call.1.len()
                    invariant
                        i <= call.1.len(),
                        new_arguments.len() == i,
                        forall|j: int|
                            0 <= j < i ==> name_model(#[trigger] new_arguments@[j]) == renamed_name(
                                name_model(call.1@[j]),
                                self.name@,
                            ),
                    decreases call.1.len() - i,
                {
                    new_arguments.push(self.rename_name(&call.1[i]));
                    i += 1;
                }
                proof {
                    let expected = renamed_names(names_model(call.1@), self.name@);
                    assert(names_model(new_arguments@) =~= expected);
                }
                Command::ProcCall(((call.0.0.clone(), call.0.1), new_arguments))
            },
            Command::Read(identifier) => {
                let new_identifier = self.rename_indentifier(identifier);
                Command::Read(new_identifier)
            },
            Command::Write(value) => {
                let new_value = self.rename_value(value);
                Command::Write(new_value)
            },
        }
    }

    fn rename_expression(&self, expression: &Expression) -> (renamed: Expression)
        ensures
            renamed@ == renamed_expression(expression@, self.name@),
    {
        match expression {
            Expression::Val(a) => Expression::Val(self.rename_value(a)),
            Expression::Add(a, b) => Expression::Add(self.rename_value(a), self.rename_value(b)),
            Expression::Substract(a, b) => Expression::Substract(
                self.rename_value(a),
                self.rename_value(b),
            ),
            Expression::Multiply(a, b) => Expression::Multiply(
                self.rename_value(a),
                self.rename_value(b),
            ),
            Expression::Divide(a, b) => Expression::Divide(
                self.rename_value(a),
                self.rename_value(b),
            ),
            Expression::Modulo(a, b) => Expression::Modulo(
                self.rename_value(a),
                self.rename_value(b),
            ),
        }
    }

    fn rename_condition(&self, condition: &Condition) -> (renamed: Condition)
        ensures
            renamed@ == renamed_condition(condition@, self.name@),
    {
        match condition {
            Condition::Equal(a, b) => Condition::Equal(self.rename_value(a), self.rename_value(b)),
            Condition::NotEqual(a, b) => Condition::NotEqual(
                self.rename_value(a),
                self.rename_value(b),
            ),
            Condition::Greater(a, b) => Condition::Greater(
                self.rename_value(a),
                self.rename_value(b),
            ),
            Condition::Lower(a, b) => Condition::Lower(self.rename_value(a), self.rename_value(b)),
            Condition::GreaterOrEqual(a, b) => Condition::GreaterOrEqual(
                self.rename_value(a),
                self.rename_value(b),
            ),
            Condition::LowerOrEqual(a, b) => Condition::LowerOrEqual(
                self.rename_value(a),
                self.rename_value(b),
            ),
        }
    }

    fn rename_value(&self, value: &Value) -> (renamed: Value)
        ensures
            renamed@ == renamed_value(value@, self.name@),
    {
        match value {
            Value::Num(num) => Value::Num(*num),
            Value::Id(id) => Value::Id(self.rename_indentifier(id)),
        }
    }

    fn rename_indentifier(&self, identifier: &Identifier) -> (renamed: Identifier)
        ensures
            renamed@ == renamed_identifier(identifier@, self.name@),
    {
        match identifier {
            Identifier::Base(id) => Identifier::Base(self.rename_name(id)),
            Identifier::NumIndexed(id, num) => Identifier::NumIndexed(self.rename_name(id), *num),
            Identifier::PidIndexed(id, index_id) => Identifier::PidIndexed(
                self.rename_name(id),
                self.rename_name(index_id),
            ),
        }
    }

    fn rename_name(&self, id: &Pidentifier) -> (renamed: Pidentifier)
        ensures
            name_model(renamed) == renamed_name(name_model(*id), self.name@),
    {
        (qualify(&id.0, &self.name), id.1)
    }
}

} // verus!
