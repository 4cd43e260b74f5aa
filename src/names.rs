//! A table from names to values in which a later definition of a name
//! overrides an earlier one.
use vstd::prelude::*;

verus! {

/// One definition: a name and the value given to it.
pub struct Entry<V> {
    pub name: String,
    pub value: V,
}

/// The value that the last definition of `name` in `defs` gives it.
pub open spec fn last_definition<V>(defs: Seq<(Seq<char>, V)>, name: Seq<char>) -> Option<V>
    decreases defs.len(),
{
    if defs.len() == 0 {
        None
    } else if defs.last().0 == name {
        Some(defs.last().1)
    } else {
        last_definition(defs.drop_last(), name)
    }
}

/// Names bound to values; defining a name again overrides it.
pub struct NameMap<V> {
    entries: Vec<Entry<V>>,
}

impl<V: Copy> NameMap<V> {
    /// The definitions in the order they were made.
    pub closed spec fn definitions(&self) -> Seq<(Seq<char>, V)> {
        Seq::new(self.entries@.len(), |i: int| (self.entries@[i].name@, self.entries@[i].value))
    }

    /// The binding of each defined name.
    pub open spec fn bindings(&self) -> Map<Seq<char>, V> {
        Map::new(
            |n: Seq<char>| last_definition(self.definitions(), n) is Some,
            |n: Seq<char>| last_definition(self.definitions(), n)->Some_0,
        )
    }

    /// The empty table.
    pub fn new() -> (r: NameMap<V>)
        ensures
            r.bindings() == Map::<Seq<char>, V>::empty(),
    {
        let r = NameMap { entries: Vec::new() };
        proof {
            assert(r.definitions() =~= Seq::<(Seq<char>, V)>::empty());
            assert(r.bindings() =~= Map::<Seq<char>, V>::empty());
        }
        r
    }

    /// Binds `name` to `value`, overriding any earlier binding.
    pub fn define(&mut self, name: &String, value: V)
        ensures
            final(self).bindings() == old(self).bindings().insert(name@, value),
    {
        let ghost before = self.definitions();
        self.entries.push(Entry { name: name.clone(), value });
        proof {
            assert(self.definitions() =~= before.push((name@, value)));
            assert(self.definitions().drop_last() =~= before);
            assert(self.bindings() =~= old(self).bindings().insert(name@, value));
        }
    }

    /// The value bound to `name`, if any.
    pub fn get(&self, name: &String) -> (r: Option<V>)
        ensures
            r == (if self.bindings().contains_key(name@) {
                Some(self.bindings()[name@])
            } else {
                None::<V>
            }),
    {
        let mut i: usize = self.entries.len();
        proof {
            assert(self.definitions().subrange(0, i as int) =~= self.definitions());
        }
        while i > 0
            invariant
                i <= self.entries@.len(),
                last_definition(self.definitions(), name@)
                    == last_definition(self.definitions().subrange(0, i as int), name@),
            decreases i,
        {
            let ghost prefix = self.definitions().subrange(0, i as int);
            proof {
                assert(prefix.drop_last() =~= self.definitions().subrange(0, i - 1));
            }
            if self.entries[i - 1].name == *name {
                return Some(self.entries[i - 1].value);
            }
            i = i - 1;
        }
        proof {
            assert(self.definitions().subrange(0, 0) =~= Seq::<(Seq<char>, V)>::empty());
        }
        None
    }
}

} // verus!
