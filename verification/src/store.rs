//! The variable store: names bound to token values.

use vstd::prelude::*;
use crate::token::{Token, TokenView};

verus! {

/// A flat namespace of variables. Every name is bound at most once; a new
/// binding of a name replaces the one before.
pub struct VariableStore {
    names: Vec<String>,
    values: Vec<Token>,
}

impl View for VariableStore {
    type V = Map<Seq<char>, TokenView>;

    closed spec fn view(&self) -> Map<Seq<char>, TokenView> {
        Map::new(
            |k: Seq<char>| self.binds(k),
            |k: Seq<char>| self.values@[self.index_of(k)]@,
        )
    }
}

impl VariableStore {
    /// Some entry has the name `k`.
    closed spec fn binds(&self, k: Seq<char>) -> bool {
        exists|i: int| 0 <= i < self.names@.len() && #[trigger] self.names@[i]@ == k
    }

    /// The place of an entry with the name `k`.
    closed spec fn index_of(&self, k: Seq<char>) -> int {
        choose|i: int| 0 <= i < self.names@.len() && #[trigger] self.names@[i]@ == k
    }

    /// Names and values come in pairs, and no name stands twice.
    pub closed spec fn wf(&self) -> bool {
        &&& self.names@.len() == self.values@.len()
        &&& forall|i: int, j: int|
            0 <= i < j < self.names@.len() ==> #[trigger] self.names@[i]@ != #[trigger] self.names@[j]@
    }

    /// The entry at `i` is the one that its name is looked up to.
    proof fn lemma_index_of(&self, i: int)
        requires
            self.wf(),
            0 <= i < self.names@.len(),
        ensures
            self.binds(self.names@[i]@),
            self.index_of(self.names@[i]@) == i,
            self@.contains_key(self.names@[i]@),
            self@[self.names@[i]@] == self.values@[i]@,
    {
        let k = self.names@[i]@;
        let j = self.index_of(k);
        assert(0 <= j < self.names@.len() && self.names@[j]@ == k);
        if j < i {
            assert(self.names@[j]@ != self.names@[i]@);
        } else if i < j {
            assert(self.names@[i]@ != self.names@[j]@);
        }
    }

    /// A store without variables.
    pub fn new() -> (res: Self)
        ensures
            res.wf(),
            res@ == Map::<Seq<char>, TokenView>::empty(),
    {
        let res = Self { names: Vec::new(), values: Vec::new() };
        proof {
            assert(res@ =~= Map::<Seq<char>, TokenView>::empty());
        }
        res
    }

    /// The place of the entry named `name`, if there is one.
    fn position(&self, name: &String) -> (res: Option<usize>)
        requires
            self.wf(),
        ensures
            match res {
                Some(i) => i < self.names@.len() && self.names@[i as int]@ == name@,
                None => !self.binds(name@),
            },
    {
        let mut i: usize = 0;
        while i < self.names.len()
            invariant
                i <= self.names@.len(),
                forall|j: int| 0 <= j < i ==> #[trigger] self.names@[j]@ != name@,
            decreases self.names@.len() - i,
        {
            if self.names[i] == *name {
                return Some(i);
            }
            i = i + 1;
        }
        None
    }

    /// Binds `name` to `value`, in place of what it was bound to.
    pub fn define(&mut self, name: String, value: Token)
        requires
            old(self).wf(),
        ensures
            final(self).wf(),
            final(self)@ == old(self)@.insert(name@, value@),
    {
        match self.position(&name) {
            Some(i) => {
                self.values.set(i, value);
                proof {
                    assert(self.wf());
                    assert forall|k: Seq<char>| self@.contains_key(k) <==> old(self)@.insert(
                        name@,
                        value@,
                    ).contains_key(k) by {
                        old(self).lemma_index_of(i as int);
                        assert(self.binds(k) == old(self).binds(k));
                    }
                    assert forall|k: Seq<char>| self@.contains_key(k) implies self@[k] == old(
                        self,
                    )@.insert(name@, value@)[k] by {
                        let j = self.index_of(k);
                        assert(self.binds(k));
                        self.lemma_index_of(j);
                        old(self).lemma_index_of(j);
                        self.lemma_index_of(i as int);
                    }
                    assert(self@ =~= old(self)@.insert(name@, value@));
                }
            },
            None => {
                let ghost n = self.names@.len() as int;
                self.names.push(name);
                self.values.push(value);
                proof {
                    assert(self.wf()) by {
                        assert forall|i: int, j: int| 0 <= i < j < self.names@.len() implies (
                        #[trigger] self.names@[i]@) != (#[trigger] self.names@[j]@) by {
                            if j < n {
                                assert(old(self).names@[i]@ != old(self).names@[j]@);
                            } else {
                                assert(old(self).names@[i]@ != name@);
                            }
                        }
                    }
                    assert forall|k: Seq<char>| self@.contains_key(k) <==> old(self)@.insert(
                        name@,
                        value@,
                    ).contains_key(k) by {
                        self.lemma_index_of(n);
                        if old(self).binds(k) {
                            let j = old(self).index_of(k);
                            assert(self.names@[j]@ == k);
                        }
                        if self.binds(k) && k != name@ {
                            let j = self.index_of(k);
                            assert(old(self).names@[j]@ == k);
                        }
                    }
                    assert forall|k: Seq<char>| self@.contains_key(k) implies self@[k] == old(
                        self,
                    )@.insert(name@, value@)[k] by {
                        let j = self.index_of(k);
                        assert(self.binds(k));
                        self.lemma_index_of(j);
                        if j < n {
                            old(self).lemma_index_of(j);
                        }
                    }
                    assert(self@ =~= old(self)@.insert(name@, value@));
                }
            },
        }
    }

    /// The value that `name` is bound to, if it is bound.
    pub fn lookup(&self, name: &String) -> (res: Option<&Token>)
        requires
            self.wf(),
        ensures
            match res {
                Some(t) => self@.contains_key(name@) && t@ == self@[name@],
                None => !self@.contains_key(name@),
            },
    {
        match self.position(name) {
            Some(i) => {
                proof {
                    self.lemma_index_of(i as int);
                }
                Some(&self.values[i])
            },
            None => None,
        }
    }
}

} // verus!
