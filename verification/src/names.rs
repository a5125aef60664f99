//! Names of variables: qualification by the owning procedure, and what of a
//! qualified name is shown to the user.
use vstd::prelude::*;
use vstd::string::{StrSliceExecFns, StringExecFns};

verus! {

/// The character between a name and the procedure that owns it.
pub const SEPARATOR: char = '@';

/// The fully-qualified form of a name that belongs to procedure `owner`.
pub open spec fn qualified(name: Seq<char>, owner: Seq<char>) -> Seq<char> {
    name + seq![SEPARATOR] + owner
}

/// The mark that every name of procedure `owner` ends in.
pub open spec fn owner_mark(owner: Seq<char>) -> Seq<char> {
    seq![SEPARATOR] + owner
}

/// Whether `part` occurs in `whole` at position `at`.
pub open spec fn occurs_at(whole: Seq<char>, part: Seq<char>, at: int) -> bool {
    &&& 0 <= at
    &&& at + part.len() <= whole.len()
    &&& whole.subrange(at, at + part.len()) == part
}

/// Whether `part` occurs somewhere in `whole`.
pub open spec fn contains(whole: Seq<char>, part: Seq<char>) -> bool {
    exists|at: int| occurs_at(whole, part, at)
}

/// Whether `name` holds the mark of procedure `owner`.
pub open spec fn mentions(name: Seq<char>, owner: Seq<char>) -> bool {
    contains(name, owner_mark(owner))
}

/// The position of the first separator in `name`, or its length if it has none.
pub open spec fn separator_index(name: Seq<char>) -> int
    decreases name.len(),
{
    if name.len() == 0 || name[0] == SEPARATOR {
        0
    } else {
        1 + separator_index(name.drop_first())
    }
}

/// The part of a name that the user wrote: what stands before the first
/// separator.
pub open spec fn visible(name: Seq<char>) -> Seq<char> {
    name.take(separator_index(name))
}

/// No character before the first separator is a separator.
pub proof fn lemma_separator_index(name: Seq<char>)
    ensures
        0 <= separator_index(name) <= name.len(),
        forall|i: int| 0 <= i < separator_index(name) ==> name[i] != SEPARATOR,
        separator_index(name) < name.len() ==> name[separator_index(name)] == SEPARATOR,
    decreases name.len(),
{
    if name.len() == 0 || name[0] == SEPARATOR {
    } else {
        let rest = name.drop_first();
        lemma_separator_index(rest);
        assert forall|i: int| 0 <= i < separator_index(name) implies name[i] != SEPARATOR by {
            if i > 0 {
                assert(name[i] == rest[i - 1]);
            }
        }
    }
}

/// The first separator is where no earlier character is one.
pub proof fn lemma_separator_index_is(name: Seq<char>, at: int)
    requires
        0 <= at <= name.len(),
        forall|i: int| 0 <= i < at ==> name[i] != SEPARATOR,
        at < name.len() ==> name[at] == SEPARATOR,
    ensures
        separator_index(name) == at,
{
    lemma_separator_index(name);
    let found = separator_index(name);
    if found < at {
        assert(name[found] == SEPARATOR);
    } else if found > at {
        assert(name[at] != SEPARATOR);
    }
}

/// A qualified name shows as the name it was made from, if that had no
/// separator of its own.
pub proof fn lemma_visible_qualified(name: Seq<char>, owner: Seq<char>)
    requires
        forall|i: int| 0 <= i < name.len() ==> name[i] != SEPARATOR,
    ensures
        visible(qualified(name, owner)) == name,
        mentions(qualified(name, owner), owner),
{
    let full = qualified(name, owner);
    lemma_separator_index_is(full, name.len() as int);
    assert(full.take(name.len() as int) =~= name);
    assert(full.subrange(name.len() as int, (name.len() + owner_mark(owner).len()) as int)
        =~= owner_mark(owner));
    assert(occurs_at(full, owner_mark(owner), name.len() as int));
}

/// The characters of a string.
pub fn characters(text: &str) -> (chars: Vec<char>)
    ensures
        chars@ == text@,
{
    let count = text.unicode_len();
    let mut chars: Vec<char> = Vec::new();
    let mut i: usize = 0;
    while i < count
        invariant
            i <= count,
            count == text@.len(),
            chars@ == text@.take(i as int),
        decreases count - i,
    {
        chars.push(text.get_char(i));
        i += 1;
        proof {
            assert(text@.take(i as int) =~= text@.take(i - 1).push(text@[i - 1]));
        }
    }
    proof {
        assert(text@.take(count as int) =~= text@);
    }
    chars
}

/// The fully-qualified form of `name` in procedure `owner`.
pub fn qualify(name: &String, owner: &String) -> (full: String)
    ensures
        full@ == qualified(name@, owner@),
{
    let mut full = name.clone();
    proof {
        reveal_strlit("@");
        assert("@"@ =~= seq![SEPARATOR]);
    }
    full.append("@");
    full.append(owner.as_str());
    full
}

/// Whether `part` stands in `whole` at position `at`.
fn matches_at(whole: &Vec<char>, part: &Vec<char>, at: usize) -> (found: bool)
    requires
        at + part.len() <= whole.len(),
    ensures
        found == occurs_at(whole@, part@, at as int),
{
    let mut i: usize = 0;
    while i < part.len()
        invariant
            i <= part.len(),
            at + part.len() <= whole.len(),
            forall|j: int| 0 <= j < i ==> whole@[at + j] == part@[j],
        decreases part.len() - i,
    {
        if whole[at + i] != part[i] {
            proof {
                let window = whole@.subrange(at as int, at + part.len());
                assert(window[i as int] == whole@[at + i]);
            }
            return false;
        }
        i += 1;
    }
    proof {
        assert(whole@.subrange(at as int, at + part.len()) =~= part@);
    }
    true
}

/// Whether `part` occurs somewhere in `whole`.
pub fn contains_chars(whole: &Vec<char>, part: &Vec<char>) -> (found: bool)
    ensures
        found == contains(whole@, part@),
{
    if part.len() > whole.len() {
        return false;
    }
    let last: usize = whole.len() - part.len();
    let mut at: usize = 0;
    loop
        invariant
            at <= last,
            last == whole.len() - part.len(),
            forall|k: int| 0 <= k < at ==> !occurs_at(whole@, part@, k),
        decreases last - at,
    {
        if matches_at(whole, part, at) {
            return true;
        }
        if at == last {
            return false;
        }
        at += 1;
    }
}

/// Whether `name` holds the mark of procedure `owner`, which every name that
/// belongs to that procedure does.
pub fn mentions_owner(name: &String, owner: &String) -> (found: bool)
    ensures
        found == mentions(name@, owner@),
{
    let whole = characters(name.as_str());
    let rest = characters(owner.as_str());
    let mut mark: Vec<char> = Vec::new();
    mark.push(SEPARATOR);
    let mut i: usize = 0;
    while i < rest.len()
        invariant
            i <= rest.len(),
            mark@ == seq![SEPARATOR] + rest@.take(i as int),
        decreases rest.len() - i,
    {
        mark.push(rest[i]);
        i += 1;
        proof {
            assert(rest@.take(i as int) =~= rest@.take(i - 1).push(rest@[i - 1]));
            assert(mark@ =~= seq![SEPARATOR] + rest@.take(i as int));
        }
    }
    proof {
        assert(rest@.take(rest.len() as int) =~= rest@);
    }
    contains_chars(&whole, &mark)
}

/// The part of `name` that the user wrote.
pub fn visible_name(name: &String) -> (shown: String)
    ensures
        shown@ == visible(name@),
{
    let text = name.as_str();
    let count = text.unicode_len();
    let mut at: usize = 0;
    while at < count && text.get_char(at) != SEPARATOR
        invariant
            at <= count,
            count == text@.len(),
            forall|i: int| 0 <= i < at ==> text@[i] != SEPARATOR,
        decreases count - at,
    {
        at += 1;
    }
    proof {
        lemma_separator_index_is(text@, at as int);
        assert(text@.subrange(0, at as int) =~= text@.take(at as int));
    }
    String::from_str(text.substring_char(0, at))
}

} // verus!
