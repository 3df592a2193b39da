//! The function table: user-defined function names and their bodies.
use vstd::prelude::*;
use crate::parser::{script_view, Command, CommandV};
use crate::text::str_eq;

verus! {

/// User-defined functions; defining a name again replaces its body.
pub struct Functions {
    funcs: Vec<(String, Vec<Vec<Command>>)>,
    model: Ghost<Map<Seq<char>, Seq<Seq<CommandV>>>>,
}

impl Functions {
    /// The defined functions, by name.
    pub closed spec fn table(&self) -> Map<Seq<char>, Seq<Seq<CommandV>>> {
        self.model@
    }

    /// Each name is stored once, and the stored entries are the table.
    pub closed spec fn wf(&self) -> bool {
        &&& forall|i: int, j: int|
            0 <= i < self.funcs@.len() && 0 <= j < self.funcs@.len() && i != j
                ==> (#[trigger] self.funcs@[i]).0@ != (#[trigger] self.funcs@[j]).0@
        &&& forall|i: int|
            0 <= i < self.funcs@.len() ==> self.model@.contains_key(
                (#[trigger] self.funcs@[i]).0@,
            ) && self.model@[self.funcs@[i].0@] == script_view(&self.funcs@[i].1)
        &&& forall|k: Seq<char>|
            #[trigger] self.model@.contains_key(k) ==> exists|i: int|
                0 <= i < self.funcs@.len() && (#[trigger] self.funcs@[i]).0@ == k
    }

    /// An empty table.
    pub fn new() -> (r: Self)
        ensures
            r.wf(),
            r.table() == Map::<Seq<char>, Seq<Seq<CommandV>>>::empty(),
    {
        Functions { funcs: Vec::new(), model: Ghost(Map::empty()) }
    }

    /// The number of defined functions.
    pub fn len(&self) -> (r: usize)
        requires
            self.wf(),
        ensures
            r == self.table().len(),
    {
        proof {
            self.lemma_len();
        }
        self.funcs.len()
    }

    /// Whether no function is defined.
    pub fn is_empty(&self) -> (r: bool)
        requires
            self.wf(),
        ensures
            r == (self.table().len() == 0),
    {
        self.len() == 0
    }

    proof fn lemma_len(&self)
        requires
            self.wf(),
        ensures
            self.funcs@.len() == self.table().len(),
    {
        let keys = self.funcs@.map_values(|e: (String, Vec<Vec<Command>>)| e.0@);
        assert(keys.to_set() =~= self.model@.dom()) by {
            assert forall|k: Seq<char>| keys.to_set().contains(k) <==> self.model@.dom().contains(k) by {
                if self.model@.dom().contains(k) {
                    let i = choose|i: int| 0 <= i < self.funcs@.len() && (#[trigger] self.funcs@[i]).0@ == k;
                    assert(keys[i] == k);
                }
                if keys.to_set().contains(k) {
                    let i = choose|i: int| 0 <= i < keys.len() && keys[i] == k;
                    assert(self.funcs@[i].0@ == k);
                }
            }
        }
        assert(keys.no_duplicates()) by {
            assert forall|i: int, j: int| 0 <= i < keys.len() && 0 <= j < keys.len() && i != j implies keys[i] != keys[j] by {
                assert(self.funcs@[i].0@ != self.funcs@[j].0@);
            }
        }
        keys.unique_seq_to_set();
    }

    fn find(&self, name: &str) -> (r: Option<usize>)
        requires
            self.wf(),
        ensures
            match r {
                Some(i) => i < self.funcs@.len() && self.funcs@[i as int].0@ == name@,
                None => !self.table().contains_key(name@),
            },
    {
        let mut i: usize = 0;
        while i < self.funcs.len()
            invariant
                self.wf(),
                i <= self.funcs@.len(),
                forall|j: int| 0 <= j < i ==> (#[trigger] self.funcs@[j]).0@ != name@,
            decreases self.funcs@.len() - i,
        {
            if str_eq(self.funcs[i].0.as_str(), name) {
                return Some(i);
            }
            i = i + 1;
        }
        None
    }

    /// Defines `name` with `body`, replacing any earlier definition.
    pub fn set(&mut self, name: String, body: Vec<Vec<Command>>)
        requires
            old(self).wf(),
        ensures
            final(self).wf(),
            final(self).table() == old(self).table().insert(name@, script_view(&body)),
    {
        let ghost k = name@;
        let ghost v = script_view(&body);
        match self.find(name.as_str()) {
            Some(i) => {
                self.funcs.set(i, (name, body));
                self.model = Ghost(self.model@.insert(k, v));
                assert forall|k2: Seq<char>| #[trigger] self.model@.contains_key(k2) implies exists|j: int|
                    0 <= j < self.funcs@.len() && (#[trigger] self.funcs@[j]).0@ == k2 by {
                    if k2 != k {
                        let j = choose|j: int| 0 <= j < old(self).funcs@.len() && (#[trigger] old(self).funcs@[j]).0@ == k2;
                        assert(self.funcs@[j] == old(self).funcs@[j]);
                    } else {
                        assert(self.funcs@[i as int].0@ == k2);
                    }
                }
            },
            None => {
                self.funcs.push((name, body));
                self.model = Ghost(self.model@.insert(k, v));
                let ghost last = self.funcs@.len() - 1;
                assert forall|k2: Seq<char>| #[trigger] self.model@.contains_key(k2) implies exists|j: int|
                    0 <= j < self.funcs@.len() && (#[trigger] self.funcs@[j]).0@ == k2 by {
                    if k2 != k {
                        let j = choose|j: int| 0 <= j < old(self).funcs@.len() && (#[trigger] old(self).funcs@[j]).0@ == k2;
                        assert(self.funcs@[j] == old(self).funcs@[j]);
                    } else {
                        assert(self.funcs@[last].0@ == k2);
                    }
                }
            },
        }
    }

    /// The body of `name`, if it is defined.
    pub fn get(&self, name: &str) -> (r: Option<&Vec<Vec<Command>>>)
        requires
            self.wf(),
        ensures
            match r {
                Some(b) => self.table().contains_key(name@) && self.table()[name@] == script_view(b),
                None => !self.table().contains_key(name@),
            },
    {
        match self.find(name) {
            Some(i) => Some(&self.funcs[i].1),
            None => None,
        }
    }

    /// Removes the definition of `name`, if there is one.
    pub fn remove(&mut self, name: &str)
        requires
            old(self).wf(),
        ensures
            final(self).wf(),
            final(self).table() == old(self).table().remove(name@),
    {
        match self.find(name) {
            Some(i) => {
                self.funcs.swap_remove(i);
                self.model = Ghost(self.model@.remove(name@));
                let ghost n = old(self).funcs@.len() - 1;
                assert forall|j: int| 0 <= j < self.funcs@.len() implies #[trigger] self.funcs@[j]
                    == old(self).funcs@[if j == i { n } else { j }] by {}
                assert forall|k2: Seq<char>| #[trigger] self.model@.contains_key(k2) implies exists|j: int|
                    0 <= j < self.funcs@.len() && (#[trigger] self.funcs@[j]).0@ == k2 by {
                    let j = choose|j: int| 0 <= j < old(self).funcs@.len() && (#[trigger] old(self).funcs@[j]).0@ == k2;
                    if j == n {
                        assert(self.funcs@[i as int] == old(self).funcs@[j]);
                    } else {
                        assert(self.funcs@[j] == old(self).funcs@[j]);
                    }
                }
                assert forall|a: int, b: int|
                    0 <= a < self.funcs@.len() && 0 <= b < self.funcs@.len() && a != b
                        implies (#[trigger] self.funcs@[a]).0@ != (#[trigger] self.funcs@[b]).0@ by {
                    let a2 = if a == i { n } else { a };
                    let b2 = if b == i { n } else { b };
                    assert(self.funcs@[a] == old(self).funcs@[a2]);
                    assert(self.funcs@[b] == old(self).funcs@[b2]);
                }
            },
            None => {
                assert(old(self).table().remove(name@) =~= old(self).table());
            },
        }
    }
}

} // verus!
