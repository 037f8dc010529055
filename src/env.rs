use vstd::prelude::*;

use crate::error::EvalError;

verus! {

/// Variable values by one-character name, each name at most once.
pub struct Environment<V> {
    entries: Vec<(char, V)>,
}

impl<V> Environment<V> {
    /// No name occurs twice.
    pub closed spec fn wf(&self) -> bool {
        forall|i: int, j: int|
            0 <= i < j < self.entries@.len() ==> #[trigger] self.entries@[i].0
                != #[trigger] self.entries@[j].0
    }

    pub closed spec fn has(&self, name: char) -> bool {
        exists|i: int| 0 <= i < self.entries@.len() && #[trigger] self.entries@[i].0 == name
    }

    pub closed spec fn value_of(&self, name: char) -> V {
        self.entries@[choose|i: int| 0 <= i < self.entries@.len() && #[trigger] self.entries@[i].0 == name].1
    }

    /// The values bound to each name.
    pub closed spec fn view(&self) -> Map<char, V> {
        Map::new(|k: char| self.has(k), |k: char| self.value_of(k))
    }

    /// An environment with no variables.
    pub fn new() -> (r: Self)
        ensures
            r.wf(),
            r@ == Map::<char, V>::empty(),
    {
        let r = Environment { entries: Vec::new() };
        assert(r@ =~= Map::<char, V>::empty());
        r
    }

    /// The index of `name`, if it is bound.
    fn find(&self, name: char) -> (r: Option<usize>)
        requires
            self.wf(),
        ensures
            match r {
                Some(i) => i < self.entries@.len() && self.entries@[i as int].0 == name,
                None => !self.has(name),
            },
    {
        let mut i: usize = 0;
        while i < self.entries.len()
            invariant
                i <= self.entries@.len(),
                forall|j: int| 0 <= j < i ==> #[trigger] self.entries@[j].0 != name,
            decreases self.entries@.len() - i,
        {
            if self.entries[i].0 == name {
                return Some(i);
            }
            i = i + 1;
        }
        None
    }

    proof fn lemma_value_at(&self, i: int)
        requires
            self.wf(),
            0 <= i < self.entries@.len(),
        ensures
            self@.contains_key(self.entries@[i].0),
            self@[self.entries@[i].0] == self.entries@[i].1,
    {
        let name = self.entries@[i].0;
        assert(self.has(name));
        let j = choose|j: int| 0 <= j < self.entries@.len() && #[trigger] self.entries@[j].0 == name;
        if j < i {
            assert(self.entries@[j].0 != self.entries@[i].0);
        } else if i < j {
            assert(self.entries@[i].0 != self.entries@[j].0);
        }
    }

    /// The value of variable `name`; fails when it has none.
    pub fn get(&self, name: char) -> (r: Result<&V, EvalError>)
        requires
            self.wf(),
        ensures
            match r {
                Ok(v) => self@.contains_key(name) && *v == self@[name],
                Err(e) => !self@.contains_key(name) && e == EvalError::UnassignedVariable(name),
            },
    {
        match self.find(name) {
            Some(i) => {
                proof {
                    self.lemma_value_at(i as int);
                }
                Ok(&self.entries[i].1)
            },
            None => Err(EvalError::UnassignedVariable(name)),
        }
    }

    /// Binds `name` to `value`, replacing any earlier value.
    pub fn insert(&mut self, name: char, value: V)
        requires
            old(self).wf(),
        ensures
            final(self).wf(),
            final(self)@ == old(self)@.insert(name, value),
    {
        let ghost pre = *self;
        match self.find(name) {
            Some(i) => {
                self.entries[i] = (name, value);
            },
            None => {
                self.entries.push((name, value));
            },
        }
        assert(self.wf()) by {
            assert forall|a: int, b: int| 0 <= a < b < self.entries@.len() implies #[trigger] self.entries@[a].0
                != #[trigger] self.entries@[b].0 by {
                if a < pre.entries@.len() && b < pre.entries@.len() {
                    assert(pre.entries@[a].0 != pre.entries@[b].0);
                }
            }
        }
        assert forall|k: char| #[trigger] self@.contains_key(k) == pre@.insert(name, value).contains_key(k) by {
            if self.has(k) {
                let j = choose|j: int| 0 <= j < self.entries@.len() && #[trigger] self.entries@[j].0 == k;
                if k != name {
                    assert(pre.entries@[j].0 == k);
                }
            }
            if k != name && pre.has(k) {
                let j = choose|j: int| 0 <= j < pre.entries@.len() && #[trigger] pre.entries@[j].0 == k;
                assert(self.entries@[j].0 == k);
            }
            if k == name {
                let j = choose|j: int| 0 <= j < self.entries@.len() && #[trigger] self.entries@[j].0 == name;
                assert(self.has(name)) by {
                    let ix = if pre.has(name) {
                        choose|j: int| 0 <= j < pre.entries@.len() && #[trigger] pre.entries@[j].0 == name
                    } else {
                        pre.entries@.len() as int
                    };
                    assert(self.entries@[ix].0 == name);
                }
            }
        }
        assert forall|k: char| #[trigger] self@.contains_key(k) implies self@[k] == pre@.insert(name, value)[k] by {
            let j = choose|j: int| 0 <= j < self.entries@.len() && #[trigger] self.entries@[j].0 == k;
            self.lemma_value_at(j);
            if k != name {
                assert(pre.entries@[j] == self.entries@[j]);
                pre.lemma_value_at(j);
            }
        }
        assert(self@ =~= pre@.insert(name, value));
    }
}

} // verus!
