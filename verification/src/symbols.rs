//! Symbol tables: from the name of a symbol to its value.

use vstd::prelude::*;

verus! {

/// What a list of symbols says: a later entry replaces an earlier one of the same name.
pub open spec fn symbol_map(entries: Seq<(String, u64)>) -> Map<Seq<char>, u64>
    decreases entries.len(),
{
    if entries.len() == 0 {
        Map::empty()
    } else {
        symbol_map(entries.drop_last()).insert(entries.last().0@, entries.last().1)
    }
}

/// Whether no name occurs twice.
pub open spec fn names_differ(entries: Seq<(String, u64)>) -> bool {
    forall|i: int, j: int|
        0 <= i < j < entries.len() ==> (#[trigger] entries[i]).0@ != (#[trigger] entries[j]).0@
}

/// A symbol table.
pub struct SymbolTable {
    entries: Vec<(String, u64)>,
}

impl View for SymbolTable {
    type V = Map<Seq<char>, u64>;

    closed spec fn view(&self) -> Map<Seq<char>, u64> {
        symbol_map(self.entries@)
    }
}

impl SymbolTable {
    #[verifier::type_invariant]
    spec fn well_formed(&self) -> bool {
        names_differ(self.entries@)
    }

    pub fn new() -> (table: Self)
        ensures
            table@ == Map::<Seq<char>, u64>::empty(),
    {
        SymbolTable { entries: Vec::new() }
    }

    /// Where `name` is listed.
    fn position(&self, name: &String) -> (found: Option<usize>)
        ensures
            match found {
                Some(i) => i < self.entries@.len() && self.entries@[i as int].0@ == name@,
                None => forall|i: int|
                    0 <= i < self.entries@.len() ==> (#[trigger] self.entries@[i]).0@ != name@,
            },
    {
        let mut i: usize = 0;
        while i < self.entries.len()
            invariant
                i <= self.entries@.len(),
                forall|j: int| 0 <= j < i ==> (#[trigger] self.entries@[j]).0@ != name@,
            decreases self.entries@.len() - i,
        {
            if self.entries[i].0 == *name {
                return Some(i);
            }
            i = i + 1;
        }
        None
    }

    /// The value of the symbol `name`, where there is one.
    pub fn get(&self, name: &str) -> (value: Option<u64>)
        ensures
            value == if self@.contains_key(name@) {
                Some(self@[name@])
            } else {
                None
            },
    {
        proof {
            use_type_invariant(self);
            lemma_symbol_map(self.entries@);
        }
        let name = name.to_string();
        match self.position(&name) {
            Some(i) => Some(self.entries[i].1),
            None => None,
        }
    }

    /// The value of a symbol that is known to be there.
    pub fn symbol(&self, name: &str) -> (value: u64)
        requires
            self@.contains_key(name@),
        ensures
            value == self@[name@],
    {
        proof {
            use_type_invariant(self);
            lemma_symbol_map(self.entries@);
        }
        let name = name.to_string();
        match self.position(&name) {
            Some(i) => self.entries[i].1,
            None => 0,
        }
    }

    /// Sets the value of the symbol `name`.
    pub fn insert(&mut self, name: String, value: u64)
        ensures
            final(self)@ == old(self)@.insert(name@, value),
    {
        proof {
            use_type_invariant(&*self);
            lemma_symbol_map(self.entries@);
        }
        let mut entries: Vec<(String, u64)> = Vec::new();
        match self.position(&name) {
            Some(i) => {
                std::mem::swap(&mut entries, &mut self.entries);
                let ghost before = entries@;
                entries.set(i, (name, value));
                proof {
                    assert(names_differ(entries@));
                    lemma_symbol_map(entries@);
                    assert(forall|j: int|
                        0 <= j < before.len() ==> (#[trigger] entries@[j]).0@ == before[j].0@);
                    assert forall|n: Seq<char>|
                        symbol_map(entries@).contains_key(n) == symbol_map(before).insert(
                            name@,
                            value,
                        ).contains_key(n) by {
                        if symbol_map(before).contains_key(n) {
                            let j = choose|j: int|
                                0 <= j < before.len() && (#[trigger] before[j]).0@ == n;
                            assert(entries@[j].0@ == n);
                        }
                        if symbol_map(entries@).contains_key(n) {
                            let j = choose|j: int|
                                0 <= j < entries@.len() && (#[trigger] entries@[j]).0@ == n;
                            assert(before[j].0@ == n);
                        }
                    }
                    assert forall|n: Seq<char>| #[trigger] symbol_map(entries@).contains_key(n) implies
                        symbol_map(entries@)[n] == symbol_map(before).insert(name@, value)[n] by {
                        let j = choose|j: int|
                            0 <= j < entries@.len() && (#[trigger] entries@[j]).0@ == n;
                        assert(before[j].0@ == n);
                        assert(entries@[i as int].0@ == name@);
                    }
                    assert(symbol_map(entries@) =~= symbol_map(before).insert(name@, value));
                }
                self.entries = entries;
            },
            None => {
                std::mem::swap(&mut entries, &mut self.entries);
                let ghost before = entries@;
                entries.push((name, value));
                assert(entries@.drop_last() =~= before);
                self.entries = entries;
            },
        }
    }
}

impl Clone for SymbolTable {
    fn clone(&self) -> (copy: Self)
        ensures
            copy@ == self@,
    {
        proof {
            use_type_invariant(self);
        }
        let mut entries: Vec<(String, u64)> = Vec::new();
        for i in 0..self.entries.len()
            invariant
                entries@.len() == i,
                forall|j: int|
                    0 <= j < i ==> (#[trigger] entries@[j]).0@ == self.entries@[j].0@ && entries@[j].1
                        == self.entries@[j].1,
        {
            entries.push((self.entries[i].0.clone(), self.entries[i].1));
        }
        proof {
            lemma_same_symbols(entries@, self.entries@);
            assert forall|a: int, b: int| 0 <= a < b < entries@.len() implies (
            #[trigger] entries@[a]).0@ != (#[trigger] entries@[b]).0@ by {
                assert(self.entries@[a].0@ != self.entries@[b].0@);
            }
        }
        SymbolTable { entries }
    }
}

proof fn lemma_same_symbols(a: Seq<(String, u64)>, b: Seq<(String, u64)>)
    requires
        a.len() == b.len(),
        forall|j: int|
            0 <= j < a.len() ==> (#[trigger] a[j]).0@ == b[j].0@ && a[j].1 == b[j].1,
    ensures
        symbol_map(a) == symbol_map(b),
    decreases a.len(),
{
    if a.len() > 0 {
        lemma_same_symbols(a.drop_last(), b.drop_last());
    }
}

/// In a list where names differ, every entry says what the table holds.
proof fn lemma_symbol_map(entries: Seq<(String, u64)>)
    requires
        names_differ(entries),
    ensures
        forall|i: int|
            0 <= i < entries.len() ==> symbol_map(entries).contains_key(
                (#[trigger] entries[i]).0@,
            ) && symbol_map(entries)[entries[i].0@] == entries[i].1,
        forall|n: Seq<char>| #[trigger]
            symbol_map(entries).contains_key(n) ==> exists|i: int|
                0 <= i < entries.len() && (#[trigger] entries[i]).0@ == n,
    decreases entries.len(),
{
    if entries.len() > 0 {
        let rest = entries.drop_last();
        lemma_symbol_map(rest);
        assert forall|i: int| 0 <= i < entries.len() implies symbol_map(entries).contains_key(
            (#[trigger] entries[i]).0@,
        ) && symbol_map(entries)[entries[i].0@] == entries[i].1 by {
            if i < rest.len() {
                assert(rest[i] == entries[i]);
            }
        }
        assert forall|n: Seq<char>| #[trigger] symbol_map(entries).contains_key(n) implies exists|
            i: int,
        | 0 <= i < entries.len() && (#[trigger] entries[i]).0@ == n by {
            if n == entries.last().0@ {
                assert(entries[entries.len() - 1].0@ == n);
            } else {
                assert(symbol_map(rest).contains_key(n));
                let i = choose|i: int| 0 <= i < rest.len() && (#[trigger] rest[i]).0@ == n;
                assert(entries[i].0@ == n);
            }
        }
    }
}

} // verus!
