//! Where variables live: the regions of memory, the table that maps each
//! fully-qualified name to its region, and the set of names known to hold a
//! value.
use vstd::prelude::*;

verus! {

/// The memory of a variable: a single word, or an array given by its first
/// word and its length.
#[derive(Debug, PartialEq, Eq, Clone, Copy, Structural)]
pub enum VariableVariant {
    Atomic(u64),
    Table(u64, u64),
}

impl VariableVariant {
    /// The first address behind the region.
    pub open spec fn end(self) -> nat {
        match self {
            VariableVariant::Atomic(address) => (address + 1) as nat,
            VariableVariant::Table(start, size) => (start + size) as nat,
        }
    }

    /// The first address of the region.
    pub open spec fn start(self) -> nat {
        match self {
            VariableVariant::Atomic(address) => address as nat,
            VariableVariant::Table(start, _) => start as nat,
        }
    }

    /// Whether the two regions have no word in common.
    pub open spec fn disjoint(self, other: VariableVariant) -> bool {
        self.end() <= other.start() || other.end() <= self.start()
    }
}

/// The model of the symbol table.
pub type MemoryModel = Map<Seq<char>, VariableVariant>;

/// The map that a list of bindings stands for: a later binding of a name
/// replaces an earlier one.
pub open spec fn map_of<V>(entries: Seq<(String, V)>) -> Map<Seq<char>, V>
    decreases entries.len(),
{
    if entries.len() == 0 {
        Map::empty()
    } else {
        map_of(entries.drop_last()).insert(entries.last().0@, entries.last().1)
    }
}

/// A map from names to values.
#[derive(Debug)]
pub struct Table<V> {
    entries: Vec<(String, V)>,
}

impl<V> View for Table<V> {
    type V = Map<Seq<char>, V>;

    closed spec fn view(&self) -> Map<Seq<char>, V> {
        map_of(self.entries@)
    }
}

impl<V> Table<V> {
    /// The map without any name.
    pub fn new() -> (table: Table<V>)
        ensures
            table@ == Map::<Seq<char>, V>::empty(),
    {
        Table { entries: Vec::new() }
    }

    /// Binds `name` to `value`, in place of what it was bound to before.
    pub fn insert(&mut self, name: String, value: V)
        ensures
            final(self)@ == old(self)@.insert(name@, value),
    {
        let ghost before = self.entries@;
        self.entries.push((name, value));
        proof {
            assert(self.entries@.drop_last() =~= before);
        }
    }

    /// What `name` is bound to, if it is bound.
    pub fn get(&self, name: &String) -> (value: Option<&V>)
        ensures
            match value {
                Some(found) => self@.dom().contains(name@) && self@[name@] == *found,
                None => !self@.dom().contains(name@),
            },
    {
        let mut found: Option<&V> = None;
        let mut i: usize = 0;
        while i < self.entries.len()
            invariant
                i <= self.entries.len(),
                match found {
                    Some(value) => map_of(self.entries@.take(i as int)).dom().contains(name@)
                        && map_of(self.entries@.take(i as int))[name@] == *value,
                    None => !map_of(self.entries@.take(i as int)).dom().contains(name@),
                },
            decreases self.entries.len() - i,
        {
            proof {
                assert(self.entries@.take(i + 1).drop_last() =~= self.entries@.take(i as int));
            }
            if self.entries[i].0 == *name {
                found = Some(&self.entries[i].1);
            }
            i += 1;
        }
        proof {
            assert(self.entries@.take(self.entries.len() as int) =~= self.entries@);
        }
        found
    }
}

/// The symbol table: from fully-qualified names to regions of memory.
pub type SymbolTable = Table<VariableVariant>;

/// The region that `name` is bound to in `memory`, if it is bound.
pub open spec fn lookup(memory: MemoryModel, name: Seq<char>) -> Option<VariableVariant> {
    if memory.dom().contains(name) {
        Some(memory[name])
    } else {
        None
    }
}

/// The set that a list of names stands for.
pub open spec fn set_of(names: Seq<String>) -> Set<Seq<char>>
    decreases names.len(),
{
    if names.len() == 0 {
        Set::empty()
    } else {
        set_of(names.drop_last()).insert(names.last()@)
    }
}

/// A set of fully-qualified names.
#[derive(Debug)]
pub struct NameSet {
    names: Vec<String>,
}

impl View for NameSet {
    type V = Set<Seq<char>>;

    closed spec fn view(&self) -> Set<Seq<char>> {
        set_of(self.names@)
    }
}

impl NameSet {
    /// The empty set.
    pub fn new() -> (set: NameSet)
        ensures
            set@ == Set::<Seq<char>>::empty(),
    {
        NameSet { names: Vec::new() }
    }

    /// Whether `name` is in the set.
    pub fn contains(&self, name: &String) -> (found: bool)
        ensures
            found == self@.contains(name@),
    {
        let mut i: usize = 0;
        while i < self.names.len()
            invariant
                i <= self.names.len(),
                !set_of(self.names@.take(i as int)).contains(name@),
            decreases self.names.len() - i,
        {
            proof {
                assert(self.names@.take(i + 1).drop_last() =~= self.names@.take(i as int));
            }
            if self.names[i] == *name {
                proof {
                    lemma_set_of_take(self.names@, i + 1);
                }
                return true;
            }
            i += 1;
        }
        proof {
            assert(self.names@.take(self.names.len() as int) =~= self.names@);
        }
        false
    }

    /// Adds `name` to the set.
    pub fn insert(&mut self, name: String)
        ensures
            final(self)@ == old(self)@.insert(name@),
    {
        let ghost before = self.names@;
        if !self.contains(&name) {
            self.names.push(name);
            proof {
                assert(self.names@.drop_last() =~= before);
            }
        } else {
            proof {
                assert(self@.insert(name@) =~= self@);
            }
        }
    }
}

/// What the first names of a list hold, the whole list holds.
proof fn lemma_set_of_take(names: Seq<String>, n: int)
    requires
        0 <= n <= names.len(),
    ensures
        set_of(names.take(n)).subset_of(set_of(names)),
    decreases names.len(),
{
    if n == names.len() {
        assert(names.take(n) =~= names);
    } else {
        lemma_set_of_take(names.drop_last(), n);
        assert(names.drop_last().take(n) =~= names.take(n));
    }
}

} // verus!
