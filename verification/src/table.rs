//! A small table from names to values, kept in the order of entry.

use vstd::prelude::*;

verus! {

/// A table from names to values. No name stands in it twice.
pub struct Table<V> {
    pub names: Vec<String>,
    pub values: Vec<V>,
}

/// The map that two lists of equal length stand for: each name with the
/// value at its place.
pub open spec fn bindings<V: View>(names: Seq<String>, values: Seq<V>) -> Map<Seq<char>, V::V>
    decreases names.len(),
{
    if names.len() == 0 || values.len() != names.len() {
        Map::empty()
    } else {
        bindings(names.drop_last(), values.drop_last()).insert(names.last()@, values.last()@)
    }
}

/// Whether no two names of the list are the same text.
pub open spec fn distinct_names(names: Seq<String>) -> bool {
    forall|i: int, j: int| 0 <= i < j < names.len() ==> names[i]@ != names[j]@
}

proof fn lemma_bindings_dom<V: View>(names: Seq<String>, values: Seq<V>, name: Seq<char>)
    requires
        names.len() == values.len(),
    ensures
        bindings(names, values).dom().contains(name) <==> exists|i: int|
            0 <= i < names.len() && names[i]@ == name,
    decreases names.len(),
{
    if names.len() > 0 {
        lemma_bindings_dom(names.drop_last(), values.drop_last(), name);
        if bindings(names, values).dom().contains(name) {
            if names.last()@ == name {
                assert(names[names.len() - 1]@ == name);
            } else {
                let i = choose|i: int| 0 <= i < names.len() - 1 && names.drop_last()[i]@ == name;
                assert(names[i]@ == name);
            }
        }
        if exists|i: int| 0 <= i < names.len() && names[i]@ == name {
            let i = choose|i: int| 0 <= i < names.len() && names[i]@ == name;
            if i < names.len() - 1 {
                assert(names.drop_last()[i]@ == name);
            }
        }
    }
}

proof fn lemma_bindings_at<V: View>(names: Seq<String>, values: Seq<V>, i: int)
    requires
        names.len() == values.len(),
        distinct_names(names),
        0 <= i < names.len(),
    ensures
        bindings(names, values).dom().contains(names[i]@),
        bindings(names, values)[names[i]@] == values[i]@,
    decreases names.len(),
{
    if i < names.len() - 1 {
        lemma_bindings_at(names.drop_last(), values.drop_last(), i);
    }
}

proof fn lemma_bindings_update<V: View>(names: Seq<String>, values: Seq<V>, i: int, value: V)
    requires
        names.len() == values.len(),
        distinct_names(names),
        0 <= i < names.len(),
    ensures
        bindings(names, values.update(i, value)) == bindings(names, values).insert(
            names[i]@,
            value@,
        ),
    decreases names.len(),
{
    let updated = values.update(i, value);
    if i < names.len() - 1 {
        lemma_bindings_update(names.drop_last(), values.drop_last(), i, value);
        assert(updated.drop_last() =~= values.drop_last().update(i, value));
        assert(bindings(names, updated) =~= bindings(names, values).insert(names[i]@, value@));
    } else {
        assert(updated.drop_last() =~= values.drop_last());
        assert(bindings(names, updated) =~= bindings(names, values).insert(names[i]@, value@));
    }
}

proof fn lemma_bindings_push<V: View>(names: Seq<String>, values: Seq<V>, name: String, value: V)
    requires
        names.len() == values.len(),
    ensures
        bindings(names.push(name), values.push(value)) == bindings(names, values).insert(
            name@,
            value@,
        ),
{
    assert(names.push(name).drop_last() =~= names);
    assert(values.push(value).drop_last() =~= values);
}

impl<V: View> View for Table<V> {
    type V = Map<Seq<char>, V::V>;

    open spec fn view(&self) -> Map<Seq<char>, V::V> {
        bindings(self.names@, self.values@)
    }
}

impl<V: View> Table<V> {
    /// Every name has its value, and no name stands twice.
    pub open spec fn wf(&self) -> bool {
        &&& self.names@.len() == self.values@.len()
        &&& distinct_names(self.names@)
    }

    /// The table without entries.
    pub fn new() -> (r: Self)
        ensures
            r.wf(),
            r@ == Map::<Seq<char>, V::V>::empty(),
    {
        Table { names: Vec::new(), values: Vec::new() }
    }

    /// The place of `name` in the table, if it stands there.
    pub fn position(&self, name: &String) -> (r: Option<usize>)
        requires
            self.wf(),
        ensures
            match r {
                Some(i) => i < self.names@.len() && self.names@[i as int]@ == name@
                    && self@.dom().contains(name@) && self@[name@] == self.values@[i as int]@,
                None => !self@.dom().contains(name@),
            },
    {
        let mut i: usize = 0;
        while i < self.names.len()
            invariant
                i <= self.names@.len(),
                self.wf(),
                forall|j: int| 0 <= j < i ==> self.names@[j]@ != name@,
            decreases self.names@.len() - i,
        {
            if self.names[i] == *name {
                proof {
                    lemma_bindings_at(self.names@, self.values@, i as int);
                }
                return Some(i);
            }
            i += 1;
        }
        proof {
            lemma_bindings_dom(self.names@, self.values@, name@);
        }
        None
    }

    /// Whether `name` stands in the table.
    pub fn holds(&self, name: &String) -> (r: bool)
        ensures
            r == self@.dom().contains(name@),
    {
        if self.names.len() != self.values.len() {
            assert(self@ == Map::<Seq<char>, V::V>::empty());
            return false;
        }
        proof {
            lemma_bindings_dom(self.names@, self.values@, name@);
        }
        let mut i: usize = 0;
        while i < self.names.len()
            invariant
                i <= self.names@.len(),
                self.names@.len() == self.values@.len(),
                forall|j: int| 0 <= j < i ==> self.names@[j]@ != name@,
            decreases self.names@.len() - i,
        {
            if self.names[i] == *name {
                proof {
                    lemma_bindings_dom(self.names@, self.values@, name@);
                    assert(self.names@[i as int]@ == name@);
                }
                return true;
            }
            i += 1;
        }
        false
    }

    /// Enters `value` under `name`, in place of what stood there if the name
    /// was in the table.
    pub fn bind(&mut self, name: String, value: V)
        requires
            old(self).wf(),
        ensures
            final(self).wf(),
            final(self)@ == old(self)@.insert(name@, value@),
    {
        match self.position(&name) {
            Some(i) => {
                proof {
                    lemma_bindings_update(self.names@, self.values@, i as int, value);
                }
                self.values.set(i, value);
            },
            None => {
                proof {
                    lemma_bindings_push(self.names@, self.values@, name, value);
                    lemma_bindings_dom(self.names@, self.values@, name@);
                }
                self.names.push(name);
                self.values.push(value);
            },
        }
    }
}

} // verus!
