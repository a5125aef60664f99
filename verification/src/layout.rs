//! The laws of memory: declared variables lie one behind the other and do
//! not overlap, and a formal parameter shares the region of its argument.
use crate::assembler::AssemblerModel;
use crate::ast::{ArgumentModel, DeclarationModel, IdentifierModel, NameModel, ProgramModel};
use crate::context::{declaration_name, declaration_size, fresh_region, full_name, ContextModel};
use crate::error::ErrorModel;
use crate::instruction::Instruction;
use crate::memory::lookup;
use crate::names::{mentions, occurs_at, owner_mark, qualified};
use crate::outcome::{
    any_mentions, call_entry, formal_bound, formal_name, formals_bound, kinds_agree, listed,
};
use crate::rename::BuilderModel;
use crate::value::pointer_code;
use vstd::prelude::*;

verus! {

/// The words that the first `count` declarations take.
pub open spec fn storage(declarations: Seq<DeclarationModel>, count: nat) -> nat
    decreases count,
{
    if count == 0 || count > declarations.len() {
        0
    } else {
        storage(declarations, (count - 1) as nat) + declaration_size(declarations[count - 1])
    }
}

/// The name under which declaration `i` is entered in the symbol table.
pub open spec fn entered_name(
    declarations: Seq<DeclarationModel>,
    owner: Option<Seq<char>>,
    i: int,
) -> Seq<char> {
    full_name(declaration_name(declarations[i]).0, owner)
}

/// Whether a later one of the first `count` declarations has the name of
/// declaration `i`.
pub open spec fn redeclared(
    declarations: Seq<DeclarationModel>,
    owner: Option<Seq<char>>,
    i: int,
    count: nat,
) -> bool {
    exists|j: int| i < j < count && entered_name(declarations, owner, j) == entered_name(
        declarations,
        owner,
        i,
    )
}

/// The storage of a list of declarations grows with the list.
pub proof fn lemma_storage_grows(declarations: Seq<DeclarationModel>, fewer: nat, more: nat)
    requires
        fewer <= more <= declarations.len(),
    ensures
        storage(declarations, fewer) <= storage(declarations, more),
    decreases more,
{
    if fewer < more {
        lemma_storage_grows(declarations, fewer, (more - 1) as nat);
    }
}

/// Giving memory to declarations moves the cursor behind them, keeps every
/// region below the cursor, and changes nothing else but the symbol table.
pub proof fn lemma_layout_cursor(
    state: ContextModel,
    declarations: Seq<DeclarationModel>,
    owner: Option<Seq<char>>,
    count: nat,
)
    requires
        state.valid(),
        count <= declarations.len(),
        state.laid_out(declarations, owner, count) is Some,
    ensures
        ({
            let laid = state.laid_out(declarations, owner, count)->0;
            &&& laid.valid()
            &&& laid.cursor == state.cursor + storage(declarations, count)
            &&& laid.initialised == state.initialised
            &&& laid.warnings == state.warnings
        }),
    decreases count,
{
    if count > 0 {
        lemma_layout_cursor(state, declarations, owner, (count - 1) as nat);
    }
}

/// Variables are laid out one behind the other in the order of their
/// declaration, from the cursor on: a declaration that is not declared again
/// later has the region that begins where the declarations before it end.
pub proof fn lemma_layout_region(
    state: ContextModel,
    declarations: Seq<DeclarationModel>,
    owner: Option<Seq<char>>,
    count: nat,
    i: int,
)
    requires
        state.valid(),
        count <= declarations.len(),
        state.laid_out(declarations, owner, count) is Some,
        0 <= i < count,
        !redeclared(declarations, owner, i, count),
    ensures
        lookup(
            state.laid_out(declarations, owner, count)->0.memory,
            entered_name(declarations, owner, i),
        ) == Some(
            fresh_region(declarations[i], (state.cursor + storage(declarations, i as nat)) as u64),
        ),
    decreases count,
{
    let fewer = (count - 1) as nat;
    lemma_layout_cursor(state, declarations, owner, fewer);
    if i < count - 1 {
        assert(entered_name(declarations, owner, i) != entered_name(
            declarations,
            owner,
            count - 1,
        )) by {
            let last = entered_name(declarations, owner, count - 1);
            if entered_name(declarations, owner, i) == last {
                assert(redeclared(declarations, owner, i, count));
            }
        }
        assert(!redeclared(declarations, owner, i, fewer)) by {
            if redeclared(declarations, owner, i, fewer) {
                let j = choose|j: int|
                    i < j < fewer && entered_name(declarations, owner, j) == entered_name(
                        declarations,
                        owner,
                        i,
                    );
                assert(i < j < count);
                assert(redeclared(declarations, owner, i, count));
            }
        }
        lemma_layout_region(state, declarations, owner, fewer, i);
    }
}

/// A name that none of the declarations declares keeps what it had.
pub proof fn lemma_layout_other(
    state: ContextModel,
    declarations: Seq<DeclarationModel>,
    owner: Option<Seq<char>>,
    count: nat,
    name: Seq<char>,
)
    requires
        count <= declarations.len(),
        state.laid_out(declarations, owner, count) is Some,
        forall|i: int| 0 <= i < count ==> entered_name(declarations, owner, i) != name,
    ensures
        lookup(state.laid_out(declarations, owner, count)->0.memory, name) == lookup(
            state.memory,
            name,
        ),
    decreases count,
{
    if count > 0 {
        assert(entered_name(declarations, owner, count - 1) != name);
        lemma_layout_other(state, declarations, owner, (count - 1) as nat, name);
    }
}

/// The regions of two declarations of one list do not overlap, and neither
/// overlaps a region that was there before.
pub proof fn lemma_layout_disjoint(
    state: ContextModel,
    declarations: Seq<DeclarationModel>,
    owner: Option<Seq<char>>,
    i: int,
    j: int,
)
    requires
        state.valid(),
        0 <= i < j < declarations.len(),
        state.laid_out(declarations, owner, declarations.len()) is Some,
    ensures
        ({
            let first = fresh_region(
                declarations[i],
                (state.cursor + storage(declarations, i as nat)) as u64,
            );
            let second = fresh_region(
                declarations[j],
                (state.cursor + storage(declarations, j as nat)) as u64,
            );
            &&& first.disjoint(second)
            &&& forall|name: Seq<char>|
                state.memory.dom().contains(name) ==> (#[trigger] state.memory[name]).disjoint(
                    first,
                )
            &&& forall|name: Seq<char>|
                state.memory.dom().contains(name) ==> (#[trigger] state.memory[name]).disjoint(
                    second,
                )
        }),
{
    lemma_layout_cursor(state, declarations, owner, declarations.len());
    lemma_storage_grows(declarations, (i + 1) as nat, j as nat);
    lemma_storage_grows(declarations, (j + 1) as nat, declarations.len());
    lemma_storage_grows(declarations, 0, i as nat);
}

/// The variables of the main block lie one behind the other from address 0
/// on, in the order of their declaration: a variable that is not declared
/// again later has the region that begins where the declarations before it
/// end.
pub proof fn lemma_main_variables(program: ProgramModel, i: int)
    requires
        AssemblerModel::initial(program).fits,
        0 <= i < listed(program.declarations).len(),
        !redeclared(
            listed(program.declarations),
            None,
            i,
            listed(program.declarations).len(),
        ),
    ensures
        AssemblerModel::initial(program).state.valid(),
        AssemblerModel::initial(program).state.cursor == storage(
            listed(program.declarations),
            listed(program.declarations).len(),
        ),
        lookup(
            AssemblerModel::initial(program).state.memory,
            declaration_name(listed(program.declarations)[i]).0,
        ) == Some(
            fresh_region(
                listed(program.declarations)[i],
                storage(listed(program.declarations), i as nat) as u64,
            ),
        ),
{
    let declarations = listed(program.declarations);
    let start = ContextModel::initial();
    lemma_layout_cursor(start, declarations, None, declarations.len());
    lemma_layout_region(start, declarations, None, declarations.len(), i);
}

/// A qualified name holds the mark of its owner.
pub proof fn lemma_qualified_mentions(name: Seq<char>, owner: Seq<char>)
    ensures
        mentions(qualified(name, owner), owner),
{
    let full = qualified(name, owner);
    let mark = owner_mark(owner);
    assert(full.subrange(name.len() as int, (name.len() + mark.len()) as int) =~= mark);
    assert(occurs_at(full, mark, name.len() as int));
}

/// Two names that are qualified by the same owner are equal only if they
/// were equal before.
pub proof fn lemma_qualified_injective(first: Seq<char>, second: Seq<char>, owner: Seq<char>)
    requires
        qualified(first, owner) == qualified(second, owner),
    ensures
        first == second,
{
    let a = qualified(first, owner);
    let b = qualified(second, owner);
    assert(a.len() == first.len() + 1 + owner.len());
    assert(b.len() == second.len() + 1 + owner.len());
    assert(first =~= a.take(first.len() as int));
    assert(second =~= b.take(second.len() as int));
}

/// Giving memory to the local variables of a procedure leaves every name
/// alone that does not belong to the procedure.
pub proof fn lemma_layout_keeps(
    state: ContextModel,
    declarations: Seq<DeclarationModel>,
    owner: Seq<char>,
    count: nat,
    name: Seq<char>,
)
    requires
        count <= declarations.len(),
        state.laid_out(declarations, Some(owner), count) is Some,
        !mentions(name, owner),
    ensures
        lookup(state.laid_out(declarations, Some(owner), count)->0.memory, name) == lookup(
            state.memory,
            name,
        ),
    decreases count,
{
    if count > 0 {
        lemma_layout_keeps(state, declarations, owner, (count - 1) as nat, name);
        lemma_qualified_mentions(declaration_name(declarations[count - 1]).0, owner);
    }
}

/// Whether a later one of the first `count` formal parameters has the name
/// of formal parameter `i`.
pub open spec fn rebound(formals: Seq<ArgumentModel>, i: int, count: nat) -> bool {
    exists|j: int| i < j < count && formal_name(formals[j]).0 == formal_name(formals[i]).0
}

/// Binding formal parameters leaves every name alone that does not belong
/// to the procedure.
pub proof fn lemma_formals_keep(
    state: ContextModel,
    formals: Seq<ArgumentModel>,
    locals: Seq<DeclarationModel>,
    owner: Seq<char>,
    arguments: Seq<NameModel>,
    count: nat,
    name: Seq<char>,
)
    requires
        count <= formals.len(),
        count <= arguments.len(),
        !mentions(name, owner),
    ensures
        lookup(formals_bound(state, formals, locals, owner, arguments, count).0.memory, name)
            == lookup(state.memory, name),
    decreases count,
{
    if count > 0 {
        lemma_formals_keep(state, formals, locals, owner, arguments, (count - 1) as nat, name);
        lemma_qualified_mentions(formal_name(formals[count - 1]).0, owner);
    }
}

/// A formal parameter that is not bound again later has the region of its
/// argument.
pub proof fn lemma_formal_region(
    state: ContextModel,
    formals: Seq<ArgumentModel>,
    locals: Seq<DeclarationModel>,
    owner: Seq<char>,
    arguments: Seq<NameModel>,
    count: nat,
    i: int,
)
    requires
        count <= formals.len(),
        count <= arguments.len(),
        !any_mentions(arguments, owner),
        formals_bound(state, formals, locals, owner, arguments, count).1 is None,
        0 <= i < count,
        !rebound(formals, i, count),
    ensures
        lookup(state.memory, arguments[i].0) is Some,
        kinds_agree(formals[i], lookup(state.memory, arguments[i].0)->0),
        lookup(
            formals_bound(state, formals, locals, owner, arguments, count).0.memory,
            qualified(formal_name(formals[i]).0, owner),
        ) == lookup(state.memory, arguments[i].0),
    decreases count,
{
    let fewer = (count - 1) as nat;
    let before = formals_bound(state, formals, locals, owner, arguments, fewer);
    let formal = formals[count - 1];
    let argument = arguments[count - 1];
    let bound = formals_bound(state, formals, locals, owner, arguments, count).0;
    assert(bound == formal_bound(before.0, formal, locals, owner, argument).0);
    if i < count - 1 {
        let this = qualified(formal_name(formals[i]).0, owner);
        let last = qualified(formal_name(formal).0, owner);
        assert(this != last) by {
            if this == last {
                lemma_qualified_injective(formal_name(formals[i]).0, formal_name(formal).0, owner);
                assert(rebound(formals, i, count));
            }
        }
        assert(!rebound(formals, i, fewer)) by {
            if rebound(formals, i, fewer) {
                let j = choose|j: int|
                    i < j < fewer && formal_name(formals[j]).0 == formal_name(formals[i]).0;
                assert(i < j < count);
                assert(rebound(formals, i, count));
            }
        }
        lemma_formal_region(state, formals, locals, owner, arguments, fewer, i);
    } else {
        assert(!mentions(argument.0, owner));
        lemma_formals_keep(state, formals, locals, owner, arguments, fewer, argument.0);
    }
}

/// Inside the body of a called procedure, a formal parameter stands for the
/// memory of its argument: when the body is entered, the qualified name of
/// each formal parameter that is not bound again by a later parameter has
/// exactly the region that the argument has at the place of the call.
pub proof fn lemma_formal_shares_region(
    procedures: Seq<BuilderModel>,
    active: Seq<bool>,
    state: ContextModel,
    callee: NameModel,
    arguments: Seq<NameModel>,
    i: int,
)
    requires
        call_entry(procedures, active, state, callee, arguments) is Entered,
        0 <= i < arguments.len(),
        !rebound(
            procedures[call_entry(procedures, active, state, callee, arguments)->Entered_0].formals,
            i,
            arguments.len(),
        ),
    ensures
        ({
            let entry = call_entry(procedures, active, state, callee, arguments);
            let formal = procedures[entry->Entered_0].formals[i];
            &&& lookup(state.memory, arguments[i].0) is Some
            &&& kinds_agree(formal, lookup(state.memory, arguments[i].0)->0)
            &&& lookup(entry->Entered_1.memory, qualified(formal_name(formal).0, callee.0))
                == lookup(state.memory, arguments[i].0)
        }),
{
    let entry = call_entry(procedures, active, state, callee, arguments);
    let k = entry->Entered_0;
    let procedure = procedures[k];
    let locals = listed(procedure.locals);
    let laid = state.laid_out(locals, Some(callee.0), locals.len())->0;
    assert(!mentions(arguments[i].0, callee.0));
    lemma_layout_keeps(state, locals, callee.0, locals.len(), arguments[i].0);
    lemma_formal_region(laid, procedure.formals, locals, callee.0, arguments, arguments.len(), i);
}

/// The code of an address, if the identifier is accepted.
pub open spec fn accepted_code(result: Result<Seq<Instruction>, ErrorModel>) -> Option<
    Seq<Instruction>,
> {
    match result {
        Ok(code) => Some(code),
        Err(_) => None,
    }
}

/// Inside the body of a called procedure, an access to a formal parameter is
/// an access to its argument: when the body is entered, a scalar parameter
/// and an element of an array parameter with a literal index have the code
/// that the argument has at the place of the call. A scalar parameter is
/// always accepted; an element of an array parameter is accepted exactly if
/// the element of the argument is.
pub proof fn lemma_formal_access(
    procedures: Seq<BuilderModel>,
    active: Seq<bool>,
    state: ContextModel,
    callee: NameModel,
    arguments: Seq<NameModel>,
    i: int,
    byte: usize,
    index: u64,
)
    requires
        call_entry(procedures, active, state, callee, arguments) is Entered,
        0 <= i < arguments.len(),
        !rebound(
            procedures[call_entry(procedures, active, state, callee, arguments)->Entered_0].formals,
            i,
            arguments.len(),
        ),
    ensures
        ({
            let entry = call_entry(procedures, active, state, callee, arguments);
            let formal = procedures[entry->Entered_0].formals[i];
            let inside = (qualified(formal_name(formal).0, callee.0), byte);
            let outside = (arguments[i].0, byte);
            &&& formal is Base ==> pointer_code(
                entry->Entered_1.memory,
                IdentifierModel::Base(inside),
            ) is Ok
            &&& accepted_code(pointer_code(entry->Entered_1.memory, IdentifierModel::Base(inside)))
                == accepted_code(pointer_code(state.memory, IdentifierModel::Base(outside)))
            &&& accepted_code(
                pointer_code(entry->Entered_1.memory, IdentifierModel::NumIndexed(inside, index)),
            ) == accepted_code(
                pointer_code(state.memory, IdentifierModel::NumIndexed(outside, index)),
            )
        }),
{
    lemma_formal_shares_region(procedures, active, state, callee, arguments, i);
}

} // verus!
