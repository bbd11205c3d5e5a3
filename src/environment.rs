use vstd::prelude::*;
use crate::value::{Val, Value};

verus! {

/// The scopes of an environment chain, innermost first.
pub type Scopes = Seq<Map<Seq<char>, Val>>;

/// The value bound to `name` in the innermost scope that binds it.
pub open spec fn lookup(scopes: Scopes, name: Seq<char>) -> Option<Val>
    decreases scopes.len(),
{
    if scopes.len() == 0 {
        None
    } else if scopes[0].contains_key(name) {
        Some(scopes[0][name])
    } else {
        lookup(scopes.drop_first(), name)
    }
}

/// The mapping that a list of bindings gives: a later binding of a name
/// hides an earlier one.
pub open spec fn bindings_map(b: Seq<(String, Value)>) -> Map<Seq<char>, Val>
    decreases b.len(),
{
    if b.len() == 0 {
        Map::empty()
    } else {
        bindings_map(b.drop_last()).insert(b.last().0@, b.last().1@)
    }
}

pub open spec fn last_binding(b: Seq<(String, Value)>, k: Seq<char>, i: int) -> bool {
    &&& 0 <= i < b.len()
    &&& b[i].0@ == k
    &&& forall|j: int| i < j < b.len() ==> #[trigger] b[j].0@ != k
}

proof fn lemma_bindings_last(b: Seq<(String, Value)>, k: Seq<char>, i: int)
    requires
        last_binding(b, k, i),
    ensures
        bindings_map(b).contains_key(k),
        bindings_map(b)[k] == b[i].1@,
    decreases b.len(),
{
    if i < b.len() - 1 {
        assert(b.last().0@ != k);
        assert(last_binding(b.drop_last(), k, i)) by {
            assert forall|j: int| i < j < b.drop_last().len() implies #[trigger] b.drop_last()[j].0@ != k by {
                assert(b[j].0@ != k);
            }
        }
        lemma_bindings_last(b.drop_last(), k, i);
    }
}

proof fn lemma_bindings_absent(b: Seq<(String, Value)>, k: Seq<char>)
    requires
        forall|j: int| 0 <= j < b.len() ==> #[trigger] b[j].0@ != k,
    ensures
        !bindings_map(b).contains_key(k),
    decreases b.len(),
{
    if b.len() > 0 {
        assert(b.last().0@ != k);
        assert forall|j: int| 0 <= j < b.drop_last().len() implies #[trigger] b.drop_last()[j].0@ != k by {
            assert(b[j].0@ != k);
        }
        lemma_bindings_absent(b.drop_last(), k);
    }
}

proof fn lemma_bindings_update(b: Seq<(String, Value)>, i: int, x: (String, Value))
    requires
        last_binding(b, x.0@, i),
    ensures
        bindings_map(b.update(i, x)) == bindings_map(b).insert(x.0@, x.1@),
    decreases b.len(),
{
    let k = x.0@;
    if i == b.len() - 1 {
        assert(b.update(i, x).drop_last() =~= b.drop_last());
        assert(bindings_map(b.update(i, x)) =~= bindings_map(b).insert(k, x.1@));
    } else {
        assert(b.update(i, x).drop_last() =~= b.drop_last().update(i, x));
        assert(b.last().0@ != k);
        assert(last_binding(b.drop_last(), k, i)) by {
            assert forall|j: int| i < j < b.drop_last().len() implies #[trigger] b.drop_last()[j].0@ != k by {
                assert(b[j].0@ != k);
            }
        }
        lemma_bindings_update(b.drop_last(), i, x);
        assert(bindings_map(b.update(i, x)) =~= bindings_map(b).insert(k, x.1@));
    }
}

/// A scope of variable bindings, chained to the scope that encloses it.
pub struct Environment {
    values: Vec<(String, Value)>,
    enclosing: Option<Box<Environment>>,
}

impl Environment {
    /// The scopes of the chain, this one first.
    pub closed spec fn scopes(&self) -> Scopes
        decreases self,
    {
        let rest = match &self.enclosing {
            Some(e) => (**e).scopes(),
            None => Seq::empty(),
        };
        seq![bindings_map(self.values@)] + rest
    }

    pub proof fn lemma_scopes_nonempty(&self)
        ensures
            self.scopes().len() >= 1,
    {
        reveal_with_fuel(Environment::scopes, 1);
    }

    /// A global scope with no bindings.
    pub fn new() -> (r: Self)
        ensures
            r.scopes() == seq![Map::<Seq<char>, Val>::empty()],
    {
        let r = Self { values: Vec::new(), enclosing: None };
        assert(r.scopes() =~= seq![Map::<Seq<char>, Val>::empty()]);
        r
    }

    /// A new empty scope inside `enclosing`.
    pub fn with_enclosing(enclosing: Environment) -> (r: Self)
        ensures
            r.scopes() == seq![Map::<Seq<char>, Val>::empty()] + enclosing.scopes(),
    {
        Self { values: Vec::new(), enclosing: Some(Box::new(enclosing)) }
    }

    /// Leaves the innermost scope: the enclosing scope takes its place.
    pub fn pop_scope(&mut self)
        requires
            old(self).scopes().len() >= 2,
        ensures
            final(self).scopes() == old(self).scopes().drop_first(),
    {
        proof {
            if old(self).enclosing is None {
                assert(old(self).scopes().len() == 1);
            }
        }
        let enclosing = self.enclosing.take();
        match enclosing {
            Some(e) => {
                *self = *e;
            },
            None => {},
        }
        proof {
            let o = old(self).scopes();
            assert(o.drop_first() =~= self.scopes());
        }
    }

    /// Binds `name` to `value` in the innermost scope, replacing a binding of
    /// the same name there.
    pub fn define(&mut self, name: String, value: Value)
        ensures
            final(self).scopes() == old(self).scopes().update(
                0,
                old(self).scopes()[0].insert(name@, value@),
            ),
    {
        let ghost k = name@;
        let ghost v = value@;
        let mut i = self.values.len();
        while i > 0
            invariant
                i <= self.values@.len(),
                self.values@ == old(self).values@,
                self.enclosing == old(self).enclosing,
                k == name@,
                forall|j: int| i <= j < self.values@.len() ==> #[trigger] self.values@[j].0@ != k,
            ensures
                i > 0 ==> self.values@[i - 1].0@ == k,
            decreases i,
        {
            if self.values[i - 1].0 == name {
                break;
            }
            i = i - 1;
        }
        let ghost b = self.values@;
        if i > 0 {
            proof {
                lemma_bindings_update(b, i - 1, (name, value));
            }
            self.values.set(i - 1, (name, value));
        } else {
            proof {
                lemma_bindings_absent(b, k);
                assert(b.push((name, value)).drop_last() =~= b);
            }
            self.values.push((name, value));
        }
        proof {
            let o = old(self).scopes();
            assert(self.scopes() =~= o.update(0, o[0].insert(k, v)));
        }
    }

    /// The value of `name` in the innermost scope that binds it.
    pub fn get(&self, name: &String) -> (r: Option<&Value>)
        ensures
            r is Some ==> lookup(self.scopes(), name@) == Some(r->0@),
            r is None ==> lookup(self.scopes(), name@) is None,
        decreases self,
    {
        let mut i = self.values.len();
        while i > 0
            invariant
                i <= self.values@.len(),
                forall|j: int| i <= j < self.values@.len() ==> #[trigger] self.values@[j].0@ != name@,
            decreases i,
        {
            if self.values[i - 1].0 == *name {
                proof {
                    lemma_bindings_last(self.values@, name@, i - 1);
                    assert(self.scopes()[0] == bindings_map(self.values@));
                }
                return Some(&self.values[i - 1].1);
            }
            i = i - 1;
        }
        proof {
            lemma_bindings_absent(self.values@, name@);
            assert(self.scopes()[0] == bindings_map(self.values@));
        }
        match &self.enclosing {
            Some(e) => {
                proof {
                    assert(self.scopes().drop_first() =~= e.scopes());
                    assert(lookup(self.scopes(), name@) == lookup(e.scopes(), name@));
                }
                e.get(name)
            },
            None => {
                proof {
                    assert(self.scopes().drop_first() =~= Seq::<Map<Seq<char>, Val>>::empty());
                    assert(lookup(self.scopes(), name@) == lookup(self.scopes().drop_first(), name@));
                }
                None
            },
        }
    }
}

} // verus!
