//! A table from names to values, kept sorted by name so that every name
//! occurs once and listings come out in one fixed order.

use crate::text::{
    find_slot, lemma_insert_at_slot, lemma_lt_asymmetric, lemma_prefix_slot, slot_of, str_lt,
    strictly_sorted, views,
};
use vstd::prelude::*;

verus! {

/// The map that a list of names and the list of their values stand for.
pub open spec fn table_map<T>(names: Seq<Seq<char>>, values: Seq<T>) -> Map<Seq<char>, T> {
    Map::new(|n: Seq<char>| names.contains(n), |n: Seq<char>| values[names.index_of(n)])
}

/// The entries that a list of names and the list of their values stand for.
pub open spec fn table_entries<T>(names: Seq<Seq<char>>, values: Seq<T>) -> Seq<(Seq<char>, T)> {
    Seq::new(names.len(), |i: int| (names[i], values[i]))
}

/// In a sorted list every name has one position.
pub proof fn lemma_position_unique(names: Seq<Seq<char>>, i: int, j: int)
    requires
        strictly_sorted(names),
        0 <= i < names.len(),
        0 <= j < names.len(),
        names[i] == names[j],
    ensures
        i == j,
{
    if i < j {
        lemma_lt_asymmetric(names[i], names[j]);
    } else if j < i {
        lemma_lt_asymmetric(names[j], names[i]);
    }
}

/// The map holds each name of the list with the value at the same position.
pub proof fn lemma_map_at<T>(names: Seq<Seq<char>>, values: Seq<T>, i: int)
    requires
        strictly_sorted(names),
        names.len() == values.len(),
        0 <= i < names.len(),
    ensures
        table_map(names, values).contains_key(names[i]),
        table_map(names, values)[names[i]] == values[i],
        names.index_of(names[i]) == i,
{
    let j = names.index_of(names[i]);
    assert(names.contains(names[i]));
    lemma_position_unique(names, i, j);
}

/// Putting a new name into its slot inserts it into the map.
pub proof fn lemma_map_insert<T>(
    names: Seq<Seq<char>>,
    values: Seq<T>,
    at: int,
    name: Seq<char>,
    value: T,
)
    requires
        strictly_sorted(names),
        names.len() == values.len(),
        slot_of(names, name, at, false),
    ensures
        strictly_sorted(names.insert(at, name)),
        table_map(names.insert(at, name), values.insert(at, value)) == table_map(
            names,
            values,
        ).insert(name, value),
{
    lemma_insert_at_slot(names, name, at);
    let names2 = names.insert(at, name);
    let values2 = values.insert(at, value);
    let m = table_map(names, values);
    let m2 = table_map(names2, values2);
    assert forall|n: Seq<char>| m2.contains_key(n) <==> m.insert(name, value).contains_key(n) by {
        assert(names2.to_set().contains(n) <==> names.to_set().insert(name).contains(n));
    }
    assert forall|n: Seq<char>| m2.contains_key(n) implies m2[n] == m.insert(name, value)[n] by {
        let k = names2.index_of(n);
        assert(names2.contains(n));
        lemma_map_at(names2, values2, k);
        if k < at {
            lemma_map_at(names, values, k);
        } else if k > at {
            lemma_map_at(names, values, k - 1);
        }
    }
    assert(m2 =~= m.insert(name, value));
}

/// Replacing the value at a position replaces it in the map.
pub proof fn lemma_map_update<T>(names: Seq<Seq<char>>, values: Seq<T>, at: int, value: T)
    requires
        strictly_sorted(names),
        names.len() == values.len(),
        0 <= at < names.len(),
    ensures
        table_map(names, values.update(at, value)) == table_map(names, values).insert(
            names[at],
            value,
        ),
{
    let m = table_map(names, values);
    let m2 = table_map(names, values.update(at, value));
    assert(names.contains(names[at]));
    assert forall|n: Seq<char>| m2.contains_key(n) implies m2[n] == m.insert(names[at], value)[n] by {
        let k = names.index_of(n);
        lemma_map_at(names, values, k);
        lemma_map_at(names, values.update(at, value), k);
        if n == names[at] {
            lemma_position_unique(names, k, at);
        }
    }
    assert(m2 =~= m.insert(names[at], value));
}

/// Taking a position out removes its name from the map.
pub proof fn lemma_map_remove<T>(names: Seq<Seq<char>>, values: Seq<T>, at: int)
    requires
        strictly_sorted(names),
        names.len() == values.len(),
        0 <= at < names.len(),
    ensures
        strictly_sorted(names.remove(at)),
        table_map(names.remove(at), values.remove(at)) == table_map(names, values).remove(
            names[at],
        ),
{
    let names2 = names.remove(at);
    let values2 = values.remove(at);
    let m = table_map(names, values);
    let m2 = table_map(names2, values2);
    assert forall|p: int, q: int| 0 <= p < q < names2.len() implies str_lt(
        #[trigger] names2[p],
        #[trigger] names2[q],
    ) by {
        let p0 = if p < at { p } else { p + 1 };
        let q0 = if q < at { q } else { q + 1 };
        assert(names2[p] == names[p0] && names2[q] == names[q0]);
    }
    assert forall|n: Seq<char>| m2.contains_key(n) <==> m.remove(names[at]).contains_key(n) by {
        if names2.contains(n) {
            let k = choose|k: int| 0 <= k < names2.len() && names2[k] == n;
            let k0 = if k < at { k } else { k + 1 };
            assert(names[k0] == n);
            if n == names[at] {
                lemma_position_unique(names, k0, at);
            }
        }
        if names.contains(n) && n != names[at] {
            let k = choose|k: int| 0 <= k < names.len() && names[k] == n;
            let k2 = if k < at { k } else { k - 1 };
            assert(names2[k2] == n);
        }
    }
    assert forall|n: Seq<char>| m2.contains_key(n) implies m2[n] == m.remove(names[at])[n] by {
        let k = names2.index_of(n);
        assert(names2.contains(n));
        lemma_map_at(names2, values2, k);
        let k0 = if k < at { k } else { k + 1 };
        lemma_map_at(names, values, k0);
    }
    assert(m2 =~= m.remove(names[at]));
}

/// The map that a list of entries stands for; of two entries with one name
/// the later one counts.
pub open spec fn entries_map<T>(s: Seq<(Seq<char>, T)>) -> Map<Seq<char>, T>
    decreases s.len(),
{
    if s.len() == 0 {
        Map::empty()
    } else {
        entries_map(s.drop_last()).insert(s.last().0, s.last().1)
    }
}

/// The entries of a sorted table stand for the map of the table.
pub proof fn lemma_entries_map<T>(names: Seq<Seq<char>>, values: Seq<T>)
    requires
        strictly_sorted(names),
        names.len() == values.len(),
    ensures
        entries_map(table_entries(names, values)) == table_map(names, values),
    decreases names.len(),
{
    let entries = table_entries(names, values);
    if names.len() == 0 {
        assert(table_map(names, values) =~= Map::<Seq<char>, T>::empty());
    } else {
        let last = names.len() - 1;
        let front_names = names.take(last);
        let front_values = values.take(last);
        lemma_prefix_slot(names, last);
        lemma_entries_map(front_names, front_values);
        lemma_map_insert(front_names, front_values, last, names[last], values[last]);
        assert(front_names.insert(last, names[last]) =~= names);
        assert(front_values.insert(last, values[last]) =~= values);
        assert(entries.drop_last() =~= table_entries(front_names, front_values));
    }
}

/// A table from names to values, sorted by name.
#[derive(Debug)]
pub struct Table<V> {
    names: Vec<String>,
    values: Vec<V>,
}

impl<V: View> Table<V> {
    /// The names of the table, in order.
    pub closed spec fn names(&self) -> Seq<Seq<char>> {
        views(self.names@)
    }

    /// The values of the table, in the order of their names.
    pub closed spec fn values(&self) -> Seq<V::V> {
        Seq::new(self.values@.len(), |i: int| self.values@[i]@)
    }

    /// Every name has its value, and the names are strictly increasing.
    pub open spec fn wf(&self) -> bool {
        &&& self.names().len() == self.values().len()
        &&& strictly_sorted(self.names())
    }

    /// The entries of the table, in order.
    pub open spec fn entries(&self) -> Seq<(Seq<char>, V::V)> {
        table_entries(self.names(), self.values())
    }

    /// The table as a map from names to values.
    pub open spec fn map(&self) -> Map<Seq<char>, V::V> {
        table_map(self.names(), self.values())
    }

    /// Read in order, the entries of a table stand for its map.
    pub proof fn lemma_entries(&self)
        requires
            self.wf(),
        ensures
            entries_map(self.entries()) == self.map(),
    {
        lemma_entries_map(self.names(), self.values());
    }

    /// An empty table.
    pub fn new() -> (r: Self)
        ensures
            r.wf(),
            r.names() == Seq::<Seq<char>>::empty(),
            r.values() == Seq::<V::V>::empty(),
            r.map() == Map::<Seq<char>, V::V>::empty(),
    {
        let r = Table { names: Vec::new(), values: Vec::new() };
        assert(r.names() =~= Seq::<Seq<char>>::empty());
        assert(r.values() =~= Seq::<V::V>::empty());
        assert(r.map() =~= Map::<Seq<char>, V::V>::empty());
        r
    }

    /// The number of entries.
    pub fn len(&self) -> (r: usize)
        requires
            self.wf(),
        ensures
            r == self.names().len(),
            r == self.values().len(),
    {
        self.names.len()
    }

    /// The name at position `i`.
    pub fn name_at(&self, i: usize) -> (r: &String)
        requires
            self.wf(),
            i < self.names().len(),
        ensures
            r@ == self.names()[i as int],
    {
        &self.names[i]
    }

    /// The value at position `i`.
    pub fn value_at(&self, i: usize) -> (r: &V)
        requires
            self.wf(),
            i < self.values().len(),
        ensures
            r@ == self.values()[i as int],
    {
        &self.values[i]
    }

    /// The value of `name`, if the table holds the name.
    pub fn get(&self, name: &str) -> (r: Option<&V>)
        requires
            self.wf(),
        ensures
            match r {
                Some(v) => self.map().contains_key(name@) && self.map()[name@] == v@,
                None => !self.map().contains_key(name@),
            },
    {
        let (at, found) = find_slot(&self.names, name);
        if found {
            proof {
                lemma_map_at(self.names(), self.values(), at as int);
            }
            Some(&self.values[at])
        } else {
            None
        }
    }

    /// Gives `name` the value `value`, whether or not it had one.
    pub fn set(&mut self, name: String, value: V)
        requires
            old(self).wf(),
        ensures
            final(self).wf(),
            final(self).map() == old(self).map().insert(name@, value@),
    {
        let ghost names = self.names();
        let ghost values = self.values();
        let (at, found) = find_slot(&self.names, name.as_str());
        if found {
            self.values.set(at, value);
            proof {
                assert(self.values() =~= values.update(at as int, value@));
                lemma_map_update(names, values, at as int, value@);
            }
        } else {
            self.names.insert(at, name);
            self.values.insert(at, value);
            proof {
                assert(self.names() =~= names.insert(at as int, name@));
                assert(self.values() =~= values.insert(at as int, value@));
                lemma_map_insert(names, values, at as int, name@, value@);
            }
        }
    }

    /// Takes `name` out of the table; says whether the table held it.
    pub fn remove(&mut self, name: &str) -> (r: bool)
        requires
            old(self).wf(),
        ensures
            final(self).wf(),
            final(self).map() == old(self).map().remove(name@),
            r == old(self).map().contains_key(name@),
    {
        let ghost names = self.names();
        let ghost values = self.values();
        let (at, found) = find_slot(&self.names, name);
        if found {
            self.names.remove(at);
            self.values.remove(at);
            proof {
                assert(self.names() =~= names.remove(at as int));
                assert(self.values() =~= values.remove(at as int));
                lemma_map_remove(names, values, at as int);
            }
        } else {
            assert(self.map() =~= self.map().remove(name@));
        }
        found
    }
}

} // verus!
