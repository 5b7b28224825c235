//! Tables keyed by text.
//!
//! A [`Table`] keeps its rows in the order in which their names first came in,
//! with every name at most once. Its view is the map from names to values.

use crate::text;
use vstd::prelude::*;

verus! {

/// No two rows have the same name.
pub open spec fn distinct<V>(rows: Seq<(Seq<char>, V)>) -> bool {
    forall|i: int, j: int| 0 <= i < j < rows.len() ==> #[trigger] rows[i].0 != #[trigger] rows[j].0
}

/// The names of the rows.
pub open spec fn names<V>(rows: Seq<(Seq<char>, V)>) -> Seq<Seq<char>> {
    rows.map_values(|r: (Seq<char>, V)| r.0)
}

/// The rows hold one named `name`.
pub open spec fn has_name<V>(rows: Seq<(Seq<char>, V)>, name: Seq<char>) -> bool {
    exists|i: int| 0 <= i < rows.len() && #[trigger] rows[i].0 == name
}

/// The index of a row named `name`.
pub open spec fn row_of<V>(rows: Seq<(Seq<char>, V)>, name: Seq<char>) -> int {
    choose|i: int| 0 <= i < rows.len() && #[trigger] rows[i].0 == name
}

/// The map from the names of the rows to their values.
pub open spec fn as_map<V>(rows: Seq<(Seq<char>, V)>) -> Map<Seq<char>, V> {
    Map::new(|k: Seq<char>| has_name(rows, k), |k: Seq<char>| rows[row_of(rows, k)].1)
}

/// A table from names to values.
#[derive(Clone, Debug)]
pub struct Table<V> {
    rows: Vec<(String, V)>,
}

impl<V> View for Table<V> {
    type V = Map<Seq<char>, V>;

    open spec fn view(&self) -> Map<Seq<char>, V> {
        as_map(self.rows())
    }
}

/// In rows with distinct names, the value of a row is what the map has for it.
pub proof fn lemma_row_value<V>(rows: Seq<(Seq<char>, V)>, i: int)
    requires
        distinct(rows),
        0 <= i < rows.len(),
    ensures
        as_map(rows).contains_key(rows[i].0),
        as_map(rows)[rows[i].0] == rows[i].1,
{
    let name = rows[i].0;
    let j = row_of(rows, name);
    assert(rows[i].0 == name);
    assert(rows[j].0 == name);
    assert(i == j);
}

/// The map has as many names as there are rows.
pub proof fn lemma_row_count<V>(rows: Seq<(Seq<char>, V)>)
    requires
        distinct(rows),
    ensures
        as_map(rows).dom().finite(),
        as_map(rows).len() == rows.len(),
{
    let ns = names(rows);
    assert(ns.no_duplicates()) by {
        assert forall|i: int, j: int| 0 <= i < ns.len() && 0 <= j < ns.len() && i != j implies ns[i]
            != ns[j] by {
            if i < j {
                assert(rows[i].0 != rows[j].0);
            } else {
                assert(rows[j].0 != rows[i].0);
            }
        }
    }
    ns.unique_seq_to_set();
    assert(as_map(rows).dom() =~= ns.to_set()) by {
        assert forall|k: Seq<char>| has_name(rows, k) == #[trigger] ns.to_set().contains(k) by {
            if has_name(rows, k) {
                let i = row_of(rows, k);
                assert(ns[i] == k);
            }
            if ns.contains(k) {
                let i = choose|i: int| 0 <= i < ns.len() && ns[i] == k;
                assert(rows[i].0 == k);
            }
        }
    }
}

proof fn lemma_push<V>(rows: Seq<(Seq<char>, V)>, name: Seq<char>, value: V)
    requires
        distinct(rows),
        !has_name(rows, name),
    ensures
        distinct(rows.push((name, value))),
        as_map(rows.push((name, value))) == as_map(rows).insert(name, value),
{
    let more = rows.push((name, value));
    assert forall|i: int, j: int| 0 <= i < j < more.len() implies #[trigger] more[i].0
        != #[trigger] more[j].0 by {
        assert(more[i] == rows[i]);
        assert(rows[i].0 != name);
        if j < rows.len() {
            assert(more[j] == rows[j]);
            assert(rows[i].0 != rows[j].0);
        }
    }
    assert forall|k: Seq<char>| has_name(more, k) == (has_name(rows, k) || k == name) by {
        if has_name(rows, k) {
            assert(more[row_of(rows, k)].0 == k);
        }
        if k == name {
            assert(more[rows.len() as int].0 == k);
        }
        if has_name(more, k) && k != name {
            assert(rows[row_of(more, k)].0 == k);
        }
    }
    assert forall|k: Seq<char>| has_name(more, k) implies #[trigger] as_map(more)[k] == as_map(
        rows,
    ).insert(name, value)[k] by {
        if k == name {
            lemma_row_value(more, rows.len() as int);
        } else {
            let i = row_of(rows, k);
            lemma_row_value(rows, i);
            assert(more[i].0 == k);
            lemma_row_value(more, i);
        }
    }
    assert(as_map(more) =~= as_map(rows).insert(name, value));
}

proof fn lemma_update<V>(rows: Seq<(Seq<char>, V)>, i: int, value: V)
    requires
        distinct(rows),
        0 <= i < rows.len(),
    ensures
        distinct(rows.update(i, (rows[i].0, value))),
        as_map(rows.update(i, (rows[i].0, value))) == as_map(rows).insert(rows[i].0, value),
{
    let name = rows[i].0;
    let more = rows.update(i, (name, value));
    assert forall|a: int| 0 <= a < rows.len() implies #[trigger] more[a].0 == rows[a].0 by {}
    assert forall|a: int, b: int| 0 <= a < b < more.len() implies #[trigger] more[a].0
        != #[trigger] more[b].0 by {
        assert(rows[a].0 != rows[b].0);
    }
    assert forall|k: Seq<char>| has_name(more, k) == has_name(rows, k) by {
        if has_name(rows, k) {
            assert(more[row_of(rows, k)].0 == k);
        }
        if has_name(more, k) {
            assert(rows[row_of(more, k)].0 == k);
        }
    }
    assert(has_name(rows, name));
    assert forall|k: Seq<char>| has_name(more, k) implies #[trigger] as_map(more)[k] == as_map(
        rows,
    ).insert(name, value)[k] by {
        let a = row_of(rows, k);
        lemma_row_value(rows, a);
        assert(more[a].0 == k);
        lemma_row_value(more, a);
        if k == name {
            assert(rows[a].0 == rows[i].0);
            assert(a == i);
        }
    }
    assert(as_map(more) =~= as_map(rows).insert(name, value));
}

proof fn lemma_remove<V>(rows: Seq<(Seq<char>, V)>, i: int)
    requires
        distinct(rows),
        0 <= i < rows.len(),
    ensures
        distinct(rows.remove(i)),
        as_map(rows.remove(i)) == as_map(rows).remove(rows[i].0),
{
    let name = rows[i].0;
    let less = rows.remove(i);
    assert forall|a: int| 0 <= a < less.len() implies #[trigger] less[a] == rows[if a < i {
        a
    } else {
        a + 1
    }] by {}
    assert forall|a: int, b: int| 0 <= a < b < less.len() implies #[trigger] less[a].0
        != #[trigger] less[b].0 by {
        let x = if a < i { a } else { a + 1 };
        let y = if b < i { b } else { b + 1 };
        assert(rows[x].0 != rows[y].0);
    }
    assert forall|k: Seq<char>| has_name(less, k) == (has_name(rows, k) && k != name) by {
        if has_name(less, k) {
            let a = row_of(less, k);
            let x = if a < i { a } else { a + 1 };
            assert(rows[x].0 == k);
            if x < i {
                assert(rows[x].0 != rows[i].0);
            } else {
                assert(rows[i].0 != rows[x].0);
            }
        }
        if has_name(rows, k) && k != name {
            let x = row_of(rows, k);
            let a = if x < i { x } else { x - 1 };
            assert(less[a].0 == k);
        }
    }
    assert forall|k: Seq<char>| has_name(less, k) implies #[trigger] as_map(less)[k] == as_map(
        rows,
    )[k] by {
        let a = row_of(less, k);
        lemma_row_value(less, a);
        let x = if a < i { a } else { a + 1 };
        lemma_row_value(rows, x);
    }
    assert(as_map(less) =~= as_map(rows).remove(name));
}

impl<V> Table<V> {
    /// The rows, in the order in which their names came in.
    pub closed spec fn rows(self) -> Seq<(Seq<char>, V)> {
        self.rows@.map_values(|r: (String, V)| (r.0@, r.1))
    }

    /// Every name occurs at most once.
    pub open spec fn wf(self) -> bool {
        distinct(self.rows())
    }

    /// An empty table.
    pub fn new() -> (r: Self)
        ensures
            r.wf(),
            r.rows() == Seq::<(Seq<char>, V)>::empty(),
            r@ == Map::<Seq<char>, V>::empty(),
    {
        let r = Table { rows: Vec::new() };
        assert(r.rows() =~= Seq::<(Seq<char>, V)>::empty());
        assert(r@ =~= Map::<Seq<char>, V>::empty());
        r
    }

    /// The number of rows.
    pub fn len(&self) -> (r: usize)
        requires
            self.wf(),
        ensures
            r == self.rows().len(),
            r == self@.len(),
    {
        proof {
            lemma_row_count(self.rows());
        }
        self.rows.len()
    }

    /// The index of the row named `name`.
    pub fn position(&self, name: &str) -> (r: Option<usize>)
        ensures
            match r {
                Some(i) => i < self.rows().len() && self.rows()[i as int].0 == name@,
                None => !has_name(self.rows(), name@),
            },
    {
        let mut i: usize = 0;
        while i < self.rows.len()
            invariant
                i <= self.rows.len(),
                self.rows().len() == self.rows.len(),
                forall|j: int| 0 <= j < i ==> #[trigger] self.rows()[j].0 != name@,
            decreases self.rows.len() - i,
        {
            assert(self.rows()[i as int].0 == self.rows@[i as int].0@);
            if text::same(self.rows[i].0.as_str(), name) {
                return Some(i);
            }
            i = i + 1;
        }
        None
    }

    /// The name of the row at `i`.
    pub fn name_at(&self, i: usize) -> (r: &str)
        requires
            i < self.rows().len(),
        ensures
            r@ == self.rows()[i as int].0,
    {
        self.rows[i].0.as_str()
    }

    /// The value of the row at `i`.
    pub fn value_at(&self, i: usize) -> (r: &V)
        requires
            i < self.rows().len(),
        ensures
            *r == self.rows()[i as int].1,
    {
        &self.rows[i].1
    }

    /// The value of the row at `i`, to be changed in place.
    pub fn value_at_mut(&mut self, i: usize) -> (r: &mut V)
        requires
            old(self).wf(),
            i < old(self).rows().len(),
        ensures
            *r == old(self).rows()[i as int].1,
            final(self).wf(),
            final(self).rows() == old(self).rows().update(
                i as int,
                (old(self).rows()[i as int].0, *final(r)),
            ),
            final(self)@ == old(self)@.insert(old(self).rows()[i as int].0, *final(r)),
    {
        let ghost before = self.rows();
        let r = &mut self.rows[i].1;
        proof {
            lemma_update(before, i as int, *final(r));
            assert(after_borrow(self).rows() =~= before.update(i as int, (before[i as int].0, *final(r))));
        }
        r
    }

    /// Whether a row is named `name`.
    pub fn contains_key(&self, name: &str) -> (r: bool)
        ensures
            r == self@.contains_key(name@),
    {
        self.position(name).is_some()
    }

    /// The value of the row named `name`.
    pub fn get(&self, name: &str) -> (r: Option<&V>)
        requires
            self.wf(),
        ensures
            match r {
                Some(v) => self@.contains_key(name@) && *v == self@[name@],
                None => !self@.contains_key(name@),
            },
    {
        match self.position(name) {
            Some(i) => {
                proof {
                    lemma_row_value(self.rows(), i as int);
                }
                Some(&self.rows[i].1)
            },
            None => None,
        }
    }

    /// Gives the row named `name` the value `value`, adding the row at the end
    /// where there is none.
    pub fn insert(&mut self, name: String, value: V)
        requires
            old(self).wf(),
        ensures
            final(self).wf(),
            final(self)@ == old(self)@.insert(name@, value),
            !has_name(old(self).rows(), name@) ==> final(self).rows() == old(self).rows().push(
                (name@, value),
            ),
            forall|i: int|
                0 <= i < old(self).rows().len() && old(self).rows()[i].0 == name@ ==> final(self).rows()
                    == #[trigger] old(self).rows().update(i, (name@, value)),
    {
        let ghost before = self.rows();
        match self.position(name.as_str()) {
            Some(i) => {
                proof {
                    lemma_update(before, i as int, value);
                    assert forall|j: int| 0 <= j < before.len() && before[j].0 == name@ implies j == i by {
                        if j < i {
                            assert(before[j].0 != before[i as int].0);
                        } else if i < j {
                            assert(before[i as int].0 != before[j].0);
                        }
                    }
                }
                self.rows.set(i, (name, value));
                assert(self.rows() =~= before.update(i as int, (name@, value)));
            },
            None => {
                proof {
                    lemma_push(before, name@, value);
                }
                self.rows.push((name, value));
                assert(self.rows() =~= before.push((name@, value)));
            },
        }
    }

    /// Takes the row named `name` out and returns its value.
    pub fn remove(&mut self, name: &str) -> (r: Option<V>)
        requires
            old(self).wf(),
        ensures
            final(self).wf(),
            final(self)@ == old(self)@.remove(name@),
            match r {
                Some(v) => {
                    &&& old(self)@.contains_key(name@)
                    &&& v == old(self)@[name@]
                    &&& exists|i: int|
                        0 <= i < old(self).rows().len() && old(self).rows()[i] == (name@, v)
                            && final(self).rows() == #[trigger] old(self).rows().remove(i)
                },
                None => !old(self)@.contains_key(name@) && final(self).rows() == old(self).rows(),
            },
    {
        let ghost before = self.rows();
        match self.position(name) {
            Some(i) => {
                proof {
                    lemma_remove(before, i as int);
                    lemma_row_value(before, i as int);
                }
                let (_, value) = self.rows.remove(i);
                assert(self.rows() =~= before.remove(i as int));
                Some(value)
            },
            None => {
                assert(as_map(before) =~= as_map(before).remove(name@));
                None
            },
        }
    }

    /// Takes all rows out.
    pub fn clear(&mut self)
        ensures
            final(self).wf(),
            final(self).rows() == Seq::<(Seq<char>, V)>::empty(),
            final(self)@ == Map::<Seq<char>, V>::empty(),
    {
        self.rows.clear();
        assert(self.rows() =~= Seq::<(Seq<char>, V)>::empty());
        assert(self@ =~= Map::<Seq<char>, V>::empty());
    }
}

} // verus!
