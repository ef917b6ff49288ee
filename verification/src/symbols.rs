//! The symbol table: the stack-frame offset of each variable name.
//!
//! A name gets its offset when it is first seen: the table's cursor at that
//! moment, after which the cursor moves on by [`STRIDE`]. A name that was
//! seen before keeps the offset it has. Nothing is ever removed.

use vstd::prelude::*;

verus! {

/// The offset of the first variable.
pub const FIRST_OFFSET: usize = 8;

/// The distance between the offsets of two variables allocated one after
/// the other.
pub const STRIDE: usize = 8;

/// The mathematical value of a [`SymbolTable`].
pub struct Symbols {
    /// The offset of each name seen so far.
    pub offsets: Map<Seq<char>, nat>,
    /// The offset that the next new name receives.
    pub cursor: nat,
}

impl Symbols {
    /// The table before any name is seen.
    pub open spec fn empty() -> Symbols {
        Symbols { offsets: Map::empty(), cursor: FIRST_OFFSET as nat }
    }

    /// The offset of `name` and the table after `name` is seen: the offset
    /// it has, with the table unchanged, or the cursor, with the name added
    /// and the cursor moved on.
    pub open spec fn resolve(self, name: Seq<char>) -> (nat, Symbols) {
        if self.offsets.contains_key(name) {
            (self.offsets[name], self)
        } else {
            (
                self.cursor,
                Symbols {
                    offsets: self.offsets.insert(name, self.cursor),
                    cursor: self.cursor + STRIDE as nat,
                },
            )
        }
    }

    /// Every offset handed out lies below the cursor, and no two names
    /// share an offset.
    pub open spec fn valid(self) -> bool {
        &&& forall|name: Seq<char>| #[trigger]
            self.offsets.contains_key(name) ==> self.offsets[name] < self.cursor
        &&& forall|a: Seq<char>, b: Seq<char>|
            #![trigger self.offsets[a], self.offsets[b]]
            self.offsets.contains_key(a) && self.offsets.contains_key(b) && a != b
                ==> self.offsets[a] != self.offsets[b]
    }

    /// Whether this table holds all that `earlier` holds, unchanged.
    pub open spec fn extends(self, earlier: Symbols) -> bool {
        &&& forall|name: Seq<char>| #[trigger]
            earlier.offsets.contains_key(name) ==> self.offsets.contains_key(name)
                && self.offsets[name] == earlier.offsets[name]
        &&& earlier.cursor <= self.cursor
    }

    /// Whether some name of the table has the offset.
    pub open spec fn has_offset(self, offset: nat) -> bool {
        exists|name: Seq<char>| #[trigger]
            self.offsets.contains_key(name) && self.offsets[name] == offset
    }
}

/// A name that is resolved twice gets the same offset both times, and the
/// second time leaves the table as it is.
pub proof fn lemma_resolve_is_stable(table: Symbols, name: Seq<char>)
    ensures
        table.resolve(name).1.resolve(name) == (table.resolve(name).0, table.resolve(name).1),
{
}

/// A name that the table does not hold yet gets an offset above every
/// offset handed out before.
pub proof fn lemma_resolve_new_is_larger(table: Symbols, name: Seq<char>, earlier: Seq<char>)
    requires
        table.valid(),
        !table.offsets.contains_key(name),
        table.offsets.contains_key(earlier),
    ensures
        table.offsets[earlier] < table.resolve(name).0,
{
}

/// Resolving a name removes nothing from the table, and the table then
/// holds the offset that the name got.
pub proof fn lemma_resolve_extends(table: Symbols, name: Seq<char>)
    ensures
        table.resolve(name).1.extends(table),
        table.resolve(name).1.has_offset(table.resolve(name).0),
        table.resolve(name).1.cursor <= table.cursor + STRIDE,
{
    let after = table.resolve(name).1;
    assert(after.offsets.contains_key(name));
    assert(after.offsets[name] == table.resolve(name).0);
}

/// Resolving a name keeps a valid table valid.
pub proof fn lemma_resolve_keeps_valid(table: Symbols, name: Seq<char>)
    requires
        table.valid(),
    ensures
        table.resolve(name).1.valid(),
{
}

/// A table that extends one that extends a third extends the third.
pub proof fn lemma_extends_transitive(first: Symbols, second: Symbols, third: Symbols)
    requires
        second.extends(first),
        third.extends(second),
    ensures
        third.extends(first),
{
}

/// The offsets of the variables of one parse.
#[derive(Debug)]
pub struct SymbolTable {
    entries: Vec<(String, usize)>,
    cursor: usize,
}

impl View for SymbolTable {
    type V = Symbols;

    closed spec fn view(&self) -> Symbols {
        Symbols {
            offsets: Map::new(
                |name: Seq<char>| self.index_of(name) is Some,
                |name: Seq<char>| self.entries@[self.index_of(name).unwrap()].1 as nat,
            ),
            cursor: self.cursor as nat,
        }
    }
}

impl SymbolTable {
    /// Whether the entry at index `i` holds `name`.
    spec fn holds_at(&self, i: int, name: Seq<char>) -> bool {
        0 <= i < self.entries@.len() && self.entries@[i].0@ == name
    }

    /// The index of the entry that holds `name`, if there is one.
    spec fn index_of(&self, name: Seq<char>) -> Option<int> {
        if exists|i: int| self.holds_at(i, name) {
            Some(choose|i: int| self.holds_at(i, name))
        } else {
            None
        }
    }

    /// The entries hold each name once, in the order in which the names
    /// were first seen, each with the offset of its place.
    pub closed spec fn wf(&self) -> bool {
        &&& self.cursor == FIRST_OFFSET + STRIDE * self.entries@.len()
        &&& forall|i: int|
            0 <= i < self.entries@.len() ==> (#[trigger] self.entries@[i]).1 == FIRST_OFFSET
                + STRIDE * i
        &&& forall|i: int, j: int, name: Seq<char>|
            #![trigger self.holds_at(i, name), self.holds_at(j, name)]
            self.holds_at(i, name) && self.holds_at(j, name) ==> i == j
    }

    /// A well-formed table has a valid value.
    pub proof fn lemma_wf_valid(&self)
        requires
            self.wf(),
        ensures
            self@.valid(),
    {
        assert forall|name: Seq<char>| #[trigger]
            self@.offsets.contains_key(name) implies self@.offsets[name] < self@.cursor by {
            let i = self.index_of(name).unwrap();
            assert(self.entries@[i].1 == FIRST_OFFSET + STRIDE * i);
        }
        assert forall|a: Seq<char>, b: Seq<char>|
            #![trigger self@.offsets[a], self@.offsets[b]]
            self@.offsets.contains_key(a) && self@.offsets.contains_key(b) && a
                != b implies self@.offsets[a] != self@.offsets[b] by {
            let i = self.index_of(a).unwrap();
            let j = self.index_of(b).unwrap();
            assert(self.entries@[i].1 == FIRST_OFFSET + STRIDE * i);
            assert(self.entries@[j].1 == FIRST_OFFSET + STRIDE * j);
        }
    }

    /// An empty table.
    pub fn new() -> (table: SymbolTable)
        ensures
            table.wf(),
            table@ == Symbols::empty(),
    {
        let table = SymbolTable { entries: Vec::new(), cursor: FIRST_OFFSET };
        assert(table@.offsets =~= Map::<Seq<char>, nat>::empty());
        table
    }

    /// The number of names in the table.
    pub fn len(&self) -> (len: usize)
        requires
            self.wf(),
        ensures
            len == self@.offsets.len(),
            self@.offsets.dom().finite(),
    {
        proof {
            self.lemma_len();
        }
        self.entries.len()
    }

    /// The offset that the next new name receives.
    pub fn cursor(&self) -> (cursor: usize)
        ensures
            cursor == self@.cursor,
    {
        self.cursor
    }

    /// The offset of `name`, if the table holds it.
    pub fn get(&self, name: &String) -> (offset: Option<usize>)
        requires
            self.wf(),
        ensures
            match offset {
                Some(o) => self@.offsets.contains_key(name@) && self@.offsets[name@] == o,
                None => !self@.offsets.contains_key(name@),
            },
    {
        let mut i: usize = 0;
        while i < self.entries.len()
            invariant
                self.wf(),
                i <= self.entries@.len(),
                forall|j: int| 0 <= j < i ==> !self.holds_at(j, name@),
            decreases self.entries@.len() - i,
        {
            if self.entries[i].0 == *name {
                proof {
                    assert(self.holds_at(i as int, name@));
                    assert(self.index_of(name@) == Some(i as int));
                }
                return Some(self.entries[i].1);
            }
            i += 1;
        }
        None
    }

    /// The offset of `name`, which is added to the table if it is new.
    pub fn resolve_or_allocate(&mut self, name: String) -> (offset: usize)
        requires
            old(self).wf(),
            old(self)@.cursor + STRIDE <= usize::MAX,
        ensures
            final(self).wf(),
            (offset as nat, final(self)@) == old(self)@.resolve(name@),
    {
        match self.get(&name) {
            Some(offset) => offset,
            None => {
                let offset = self.cursor;
                let ghost before = *self;
                self.entries.push((name, offset));
                self.cursor = offset + STRIDE;
                proof {
                    let last = before.entries@.len() as int;
                    assert forall|i: int, n: Seq<char>| i != last implies (#[trigger] self.holds_at(
                        i,
                        n,
                    ) <==> before.holds_at(i, n)) by {}
                    assert forall|n: Seq<char>| !before.holds_at(last, n) by {}
                    assert(self.holds_at(last, name@));
                    assert forall|n: Seq<char>| #[trigger]
                        self@.offsets.contains_key(n) <==> (n == name@
                            || before@.offsets.contains_key(n)) by {
                        if before@.offsets.contains_key(n) {
                            assert(self.holds_at(before.index_of(n).unwrap(), n));
                        }
                    }
                    assert forall|n: Seq<char>| #[trigger]
                        before@.offsets.contains_key(n) implies self@.offsets[n]
                        == before@.offsets[n] by {
                        let k = before.index_of(n).unwrap();
                        let m = self.index_of(n).unwrap();
                        assert(self.holds_at(k, n));
                        assert(self.holds_at(m, n));
                        assert(m == k);
                    }
                    assert(self.index_of(name@) == Some(last));
                    assert(self@.offsets =~= before@.offsets.insert(name@, offset as nat));
                }
                offset
            },
        }
    }

    /// The table holds as many names as entries.
    proof fn lemma_len(&self)
        requires
            self.wf(),
        ensures
            self@.offsets.dom().finite(),
            self@.offsets.len() == self.entries@.len(),
    {
        self.lemma_len_upto(self.entries@.len() as int);
        assert(self.names_upto(self.entries@.len() as int) =~= self@.offsets.dom());
    }

    /// The names of the first `n` entries.
    spec fn names_upto(&self, n: int) -> Set<Seq<char>> {
        Set::new(|name: Seq<char>| exists|i: int| 0 <= i < n && self.holds_at(i, name))
    }

    /// The first `n` entries hold `n` names.
    proof fn lemma_len_upto(&self, n: int)
        requires
            self.wf(),
            0 <= n <= self.entries@.len(),
        ensures
            self.names_upto(n).finite(),
            self.names_upto(n).len() == n,
        decreases n,
    {
        if n == 0 {
            assert(self.names_upto(0) =~= Set::<Seq<char>>::empty());
        } else {
            self.lemma_len_upto(n - 1);
            let last = self.entries@[n - 1].0@;
            assert(self.holds_at(n - 1, last));
            assert(!self.names_upto(n - 1).contains(last));
            assert(self.names_upto(n) =~= self.names_upto(n - 1).insert(last));
        }
    }
}

} // verus!
