//! The state that code generation carries along: the symbol table, the
//! memory cursor, the names known to hold a value and the warnings given so
//! far.
use crate::ast::{DeclarationModel, DeclarationVariant, NameModel};
use crate::memory::{lookup, MemoryModel, NameSet, SymbolTable, VariableVariant};
use crate::names::{qualified, qualify, visible, visible_name};
use vstd::prelude::*;

verus! {

/// The model of the state of code generation.
pub struct ContextModel {
    /// The region of every name that is declared or bound.
    pub memory: MemoryModel,
    /// The first address that is still free.
    pub cursor: u64,
    /// The names known to have been given a value.
    pub initialised: Set<Seq<char>>,
    /// The names, as the user wrote them, that were used before they had a
    /// value, in the order in which this was noticed.
    pub warnings: Seq<Seq<char>>,
}

impl ContextModel {
    /// The state before anything is declared.
    pub open spec fn initial() -> ContextModel {
        ContextModel {
            memory: Map::empty(),
            cursor: 0,
            initialised: Set::empty(),
            warnings: Seq::empty(),
        }
    }

    /// Every region lies below the cursor.
    pub open spec fn valid(self) -> bool {
        forall|name: Seq<char>|
            self.memory.dom().contains(name) ==> (#[trigger] self.memory[name]).end()
                <= self.cursor
    }

    /// The state after `name` is used: a warning is added unless the name is
    /// known to hold a value.
    pub open spec fn used(self, name: Seq<char>) -> ContextModel {
        if self.initialised.contains(name) {
            self
        } else {
            ContextModel { warnings: self.warnings.push(visible(name)), ..self }
        }
    }

    /// The state after `name` is given a value.
    pub open spec fn marked(self, name: Seq<char>) -> ContextModel {
        ContextModel { initialised: self.initialised.insert(name), ..self }
    }

    /// The state after `name` is bound to `region`.
    pub open spec fn bound(self, name: Seq<char>, region: VariableVariant) -> ContextModel {
        ContextModel { memory: self.memory.insert(name, region), ..self }
    }

    /// The state after `declaration` is given fresh memory at the cursor, or
    /// `None` if the address space cannot hold it. A name that belongs to a
    /// procedure is entered in its qualified form.
    pub open spec fn declared(self, declaration: DeclarationModel, owner: Option<Seq<char>>)
        -> Option<ContextModel> {
        let name = full_name(declaration_name(declaration).0, owner);
        if self.cursor + declaration_size(declaration) > u64::MAX {
            None
        } else {
            Some(
                ContextModel {
                    memory: self.memory.insert(name, fresh_region(declaration, self.cursor)),
                    cursor: (self.cursor + declaration_size(declaration)) as u64,
                    ..self
                },
            )
        }
    }

    /// The state after the first `count` of `declarations` are given memory,
    /// one behind the other in the order of the list, or `None` if the address
    /// space cannot hold them.
    pub open spec fn laid_out(
        self,
        declarations: Seq<DeclarationModel>,
        owner: Option<Seq<char>>,
        count: nat,
    ) -> Option<ContextModel>
        decreases count,
    {
        if count == 0 || count > declarations.len() {
            Some(self)
        } else {
            match self.laid_out(declarations, owner, (count - 1) as nat) {
                Some(before) => before.declared(declarations[count - 1], owner),
                None => None,
            }
        }
    }

    /// The state after as many of the first `count` of `declarations` are
    /// given memory as fit in the address space, one behind the other in the
    /// order of the list: all of them, or those before the first that does
    /// not fit.
    pub open spec fn laid_out_at_most(
        self,
        declarations: Seq<DeclarationModel>,
        owner: Option<Seq<char>>,
        count: nat,
    ) -> ContextModel
        decreases count,
    {
        if count == 0 || count > declarations.len() {
            self
        } else {
            let before = self.laid_out_at_most(declarations, owner, (count - 1) as nat);
            match self.laid_out(declarations, owner, count) {
                Some(laid) => laid,
                None => before,
            }
        }
    }
}

/// The name under which a variable is entered in the symbol table.
pub open spec fn full_name(name: Seq<char>, owner: Option<Seq<char>>) -> Seq<char> {
    match owner {
        Some(procedure) => qualified(name, procedure),
        None => name,
    }
}

/// The name that a declaration declares, as the user wrote it.
pub open spec fn declaration_name(declaration: DeclarationModel) -> NameModel {
    match declaration {
        DeclarationModel::Base(name) => name,
        DeclarationModel::NumIndexed(name, _) => name,
    }
}

/// The number of words that a declaration takes.
pub open spec fn declaration_size(declaration: DeclarationModel) -> nat {
    match declaration {
        DeclarationModel::Base(_) => 1,
        DeclarationModel::NumIndexed(_, size) => size as nat,
    }
}

/// The region that a declaration gets when the cursor stands at `cursor`.
pub open spec fn fresh_region(declaration: DeclarationModel, cursor: u64) -> VariableVariant {
    match declaration {
        DeclarationModel::Base(_) => VariableVariant::Atomic(cursor),
        DeclarationModel::NumIndexed(_, size) => VariableVariant::Table(cursor, size),
    }
}

/// The user-visible forms of a list of names.
pub open spec fn texts(names: Seq<String>) -> Seq<Seq<char>> {
    Seq::new(names.len(), |i: int| names[i]@)
}

/// The state of code generation.
#[derive(Debug)]
pub struct Context {
    memory: SymbolTable,
    initialisated_variables: NameSet,
    memory_pointer: u64,
    warnings: Vec<String>,
}

impl View for Context {
    type V = ContextModel;

    closed spec fn view(&self) -> ContextModel {
        ContextModel {
            memory: self.memory@,
            cursor: self.memory_pointer,
            initialised: self.initialisated_variables@,
            warnings: texts(self.warnings@),
        }
    }
}

impl Context {
    /// The state before anything is declared.
    pub fn new() -> (context: Context)
        ensures
            context@ == ContextModel::initial(),
    {
        let context = Context {
            memory: SymbolTable::new(),
            initialisated_variables: NameSet::new(),
            memory_pointer: 0,
            warnings: Vec::new(),
        };
        proof {
            assert(texts(context.warnings@) =~= Seq::<Seq<char>>::empty());
        }
        context
    }

    /// The region that `name` is bound to, if it is bound.
    pub fn lookup(&self, name: &String) -> (region: Option<VariableVariant>)
        ensures
            region == lookup(self@.memory, name@),
    {
        match self.memory.get(name) {
            Some(region) => Some(*region),
            None => None,
        }
    }

    /// Notes a use of `name`: unless the name is known to hold a value, a
    /// warning is added.
    pub fn note_use(&mut self, name: &String)
        ensures
            final(self)@ == old(self)@.used(name@),
    {
        if !self.initialisated_variables.contains(name) {
            let ghost before = self.warnings@;
            self.warnings.push(visible_name(name));
            proof {
                assert(texts(self.warnings@) =~= texts(before).push(visible(name@)));
            }
        }
    }

    /// Notes that `name` is given a value.
    pub fn mark_initialised(&mut self, name: String)
        ensures
            final(self)@ == old(self)@.marked(name@),
    {
        self.initialisated_variables.insert(name);
    }

    /// Binds `name` to `region`, in place of what it was bound to before.
    pub fn bind(&mut self, name: String, region: VariableVariant)
        ensures
            final(self)@ == old(self)@.bound(name@, region),
    {
        self.memory.insert(name, region);
    }

    /// Gives `declaration` fresh memory at the cursor and says whether the
    /// address space could hold it; if not, nothing changes.
    pub fn declare(&mut self, declaration: &DeclarationVariant, owner: Option<&String>) -> (fits:
        bool)
        ensures
            fits == old(self)@.declared(declaration@, owner_model(owner)).is_some(),
            fits ==> final(self)@ == old(self)@.declared(declaration@, owner_model(owner))->0,
            !fits ==> final(self)@ == old(self)@,
    {
        let (id, size, region) = match declaration {
            DeclarationVariant::Base(id) => (
                id,
                1u64,
                VariableVariant::Atomic(self.memory_pointer),
            ),
            DeclarationVariant::NumIndexed(id, size) => (
                id,
                *size,
                VariableVariant::Table(self.memory_pointer, *size),
            ),
        };
        if size > u64::MAX - self.memory_pointer {
            return false;
        }
        let name = match owner {
            Some(procedure) => qualify(&id.0, procedure),
            None => id.0.clone(),
        };
        self.memory.insert(name, region);
        self.memory_pointer = self.memory_pointer + size;
        true
    }

    /// The names, as the user wrote them, that were used before they had a
    /// value, in the order in which this was noticed.
    pub fn warnings(&self) -> (warnings: &Vec<String>)
        ensures
            texts(warnings@) == self@.warnings,
    {
        &self.warnings
    }
}

/// The model of the procedure that a declaration belongs to, if it belongs
/// to one.
pub open spec fn owner_model(owner: Option<&String>) -> Option<Seq<char>> {
    match owner {
        Some(procedure) => Some(procedure@),
        None => None,
    }
}

/// Giving memory to a declaration keeps every region below the cursor, and
/// the new region lies behind all that were there.
pub proof fn lemma_declared_valid(
    state: ContextModel,
    declaration: DeclarationModel,
    owner: Option<Seq<char>>,
)
    requires
        state.valid(),
        state.declared(declaration, owner).is_some(),
    ensures
        state.declared(declaration, owner)->0.valid(),
        forall|name: Seq<char>|
            state.memory.dom().contains(name) ==> (#[trigger] state.memory[name]).end()
                <= fresh_region(declaration, state.cursor).start(),
{
}

} // verus!
