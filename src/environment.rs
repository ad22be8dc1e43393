use vstd::prelude::*;
use crate::value::Value;

verus! {

/// The bindings of a session: each name maps to the last value stored under it.
#[derive(Debug)]
pub struct Environment {
    bindings: Vec<(String, Value)>,
}

/// The message of a failed lookup of `name`.
pub open spec fn msg_binding_not_found(name: Seq<char>) -> Seq<char> {
    "binding with name ‘"@ + name + "’ does not exist"@
}

impl Environment {
    /// Each name is stored at most once.
    pub closed spec fn wf(&self) -> bool {
        forall|i: int, j: int|
            0 <= i < self.bindings@.len() && 0 <= j < self.bindings@.len() && i != j
                ==> #[trigger] self.bindings@[i].0@ != #[trigger] self.bindings@[j].0@
    }

    closed spec fn holds_key(&self, k: Seq<char>) -> bool {
        exists|i: int| 0 <= i < self.bindings@.len() && #[trigger] self.bindings@[i].0@ == k
    }

    closed spec fn index_of(&self, k: Seq<char>) -> int {
        choose|i: int| 0 <= i < self.bindings@.len() && #[trigger] self.bindings@[i].0@ == k
    }

    /// The bindings as a map from name to value.
    pub closed spec fn view(&self) -> Map<Seq<char>, Value> {
        Map::new(|k: Seq<char>| self.holds_key(k), |k: Seq<char>| self.bindings@[self.index_of(k)].1)
    }

    /// An environment with no bindings.
    pub fn new() -> (r: Environment)
        ensures
            r.wf(),
            r.view() == Map::<Seq<char>, Value>::empty(),
    {
        let r = Environment { bindings: Vec::new() };
        assert(r.view() =~= Map::<Seq<char>, Value>::empty());
        r
    }

    /// Stores `value` under `name`, replacing any value stored there before.
    pub fn store_binding(&mut self, name: String, value: Value)
        requires
            old(self).wf(),
        ensures
            final(self).wf(),
            final(self).view() == old(self).view().insert(name@, value),
    {
        let n = self.bindings.len();
        let mut i: usize = 0;
        let mut found = false;
        while i < n && !found
            invariant
                n == self.bindings@.len(),
                i <= n,
                self.wf(),
                forall|j: int| 0 <= j < i ==> #[trigger] self.bindings@[j].0@ != name@,
                found ==> i < n && self.bindings@[i as int].0@ == name@,
            decreases n - i + (if found { 0int } else { 1int }),
        {
            if self.bindings[i].0 == name {
                found = true;
            } else {
                i = i + 1;
            }
        }
        let ghost before = *self;
        let ghost key = name@;
        if found {
            self.bindings.set(i, (name, value));
            proof {
                assert forall|k: Seq<char>| #[trigger] self.holds_key(k) == (before.holds_key(k) || k == key) by {
                    if before.holds_key(k) {
                        let j = before.index_of(k);
                        assert(self.bindings@[j].0@ == k || j == i);
                    }
                    if k == key {
                        assert(self.bindings@[i as int].0@ == k);
                    }
                    if self.holds_key(k) {
                        let j = self.index_of(k);
                        if j != i {
                            assert(before.bindings@[j].0@ == k);
                        }
                    }
                }
                assert forall|k: Seq<char>| #[trigger] self.holds_key(k) && k != key implies
                    self.bindings@[self.index_of(k)].1 == before.bindings@[before.index_of(k)].1 by {
                    let j = self.index_of(k);
                    let j0 = before.index_of(k);
                    assert(j != i);
                    assert(before.bindings@[j].0@ == k);
                    assert(j == j0);
                }
                assert(self.bindings@[self.index_of(key)].1 == value) by {
                    assert(self.bindings@[i as int].0@ == key);
                }
                assert(self.view() =~= before.view().insert(key, value));
            }
        } else {
            self.bindings.push((name, value));
            proof {
                let last = n as int;
                assert forall|k: Seq<char>| #[trigger] self.holds_key(k) == (before.holds_key(k) || k == key) by {
                    if before.holds_key(k) {
                        let j = before.index_of(k);
                        assert(self.bindings@[j].0@ == k);
                    }
                    if k == key {
                        assert(self.bindings@[last].0@ == k);
                    }
                    if self.holds_key(k) {
                        let j = self.index_of(k);
                        if j != last {
                            assert(before.bindings@[j].0@ == k);
                        }
                    }
                }
                assert forall|k: Seq<char>| #[trigger] self.holds_key(k) && k != key implies
                    self.bindings@[self.index_of(k)].1 == before.bindings@[before.index_of(k)].1 by {
                    let j = self.index_of(k);
                    let j0 = before.index_of(k);
                    assert(j != last);
                    assert(before.bindings@[j].0@ == k);
                    assert(j == j0);
                }
                assert(self.bindings@[self.index_of(key)].1 == value) by {
                    assert(self.bindings@[last].0@ == key);
                }
                assert(self.view() =~= before.view().insert(key, value));
            }
        }
    }

    /// The value stored under `name`, or an error naming it when there is none.
    pub fn get_binding_value(&self, name: &str) -> (r: Result<Value, String>)
        requires
            self.wf(),
        ensures
            match r {
                Ok(v) => self.view().contains_key(name@) && self.view()[name@] == v,
                Err(e) => !self.view().contains_key(name@) && e@ == msg_binding_not_found(name@),
            },
    {
        let key = String::from_str(name);
        let n = self.bindings.len();
        let mut i: usize = 0;
        while i < n
            invariant
                n == self.bindings@.len(),
                i <= n,
                self.wf(),
                key@ == name@,
                forall|j: int| 0 <= j < i ==> #[trigger] self.bindings@[j].0@ != name@,
            decreases n - i,
        {
            if self.bindings[i].0 == key {
                proof {
                    assert(self.holds_key(name@));
                    let j = self.index_of(name@);
                    assert(self.bindings@[j].0@ == name@);
                    assert(self.bindings@[i as int].0@ == name@);
                    assert(j == i);
                }
                return Ok(self.bindings[i].1);
            }
            i = i + 1;
        }
        let msg = String::from_str("binding with name ‘").concat(name).concat("’ does not exist");
        Err(msg)
    }
}

impl Default for Environment {
    fn default() -> (r: Environment)
        ensures
            r.wf(),
            r.view() == Map::<Seq<char>, Value>::empty(),
    {
        Environment::new()
    }
}

/// Storing a second value under a name replaces the first: the environment is as if only
/// the second had been stored, and a lookup of the name gives the second.
pub proof fn lemma_rebinding(env: Map<Seq<char>, Value>, name: Seq<char>, first: Value, second: Value)
    ensures
        env.insert(name, first).insert(name, second) == env.insert(name, second),
        env.insert(name, first).insert(name, second)[name] == second,
{
    assert(env.insert(name, first).insert(name, second) =~= env.insert(name, second));
}

} // verus!
