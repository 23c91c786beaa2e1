//! A small association table from `u64` keys to values, with unique keys
//! and insertion order kept. The store uses it for per-entity component
//! bags, for the reverse index, and for the resource table.

use vstd::prelude::*;

verus! {

pub struct Row<V> {
    pub(crate) key: u64,
    pub(crate) val: V,
}

pub struct Table<V> {
    rows: Vec<Row<V>>,
}

pub(crate) open spec fn rows_keys<V>(rows: Seq<Row<V>>) -> Seq<u64> {
    rows.map_values(|r: Row<V>| r.key)
}

pub(crate) open spec fn rows_map<V>(rows: Seq<Row<V>>) -> Map<u64, V>
    decreases rows.len(),
{
    if rows.len() == 0 {
        Map::empty()
    } else {
        rows_map(rows.drop_last()).insert(rows.last().key, rows.last().val)
    }
}

impl<V> Table<V> {
    /// The table as a mathematical map.
    pub closed spec fn view(self) -> Map<u64, V> {
        rows_map(self.rows@)
    }

    /// The keys in insertion order.
    pub closed spec fn keys(self) -> Seq<u64> {
        rows_keys(self.rows@)
    }

    /// Keys are unique.
    pub closed spec fn wf(self) -> bool {
        forall|i: int, j: int|
            0 <= i < j < self.rows@.len() ==> self.rows@[i].key != self.rows@[j].key
    }

    pub fn new() -> (r: Table<V>)
        ensures
            r.wf(),
            r.view() == Map::<u64, V>::empty(),
            r.keys() == Seq::<u64>::empty(),
    {
        Table { rows: Vec::new() }
    }

    /// Number of rows, which equals the number of distinct keys.
    pub fn len(&self) -> (r: usize)
        ensures
            r == self.keys().len(),
    {
        self.rows.len()
    }

    /// The key of the `i`th row, in insertion order.
    pub fn key_at(&self, i: usize) -> (r: u64)
        requires
            i < self.keys().len(),
        ensures
            r == self.keys()[i as int],
            self.view().contains_key(r),
    {
        proof {
            lemma_rows_map_contains_at(self.rows@, i as int);
        }
        self.rows[i].key
    }

    fn find(&self, key: u64) -> (r: Option<usize>)
        ensures
            match r {
                Some(i) => i < self.rows@.len() && self.rows@[i as int].key == key,
                None => forall|j: int| 0 <= j < self.rows@.len() ==> self.rows@[j].key != key,
            },
    {
        let mut i: usize = 0;
        while i < self.rows.len()
            invariant
                i <= self.rows@.len(),
                forall|j: int| 0 <= j < i ==> self.rows@[j].key != key,
            decreases self.rows@.len() - i,
        {
            if self.rows[i].key == key {
                return Some(i);
            }
            i = i + 1;
        }
        None
    }

    /// Whether the table holds the key.
    pub fn contains(&self, key: u64) -> (r: bool)
        ensures
            r == self.view().contains_key(key),
    {
        let found = self.find(key);
        proof {
            match found {
                Some(i) => lemma_rows_map_contains_at(self.rows@, i as int),
                None => lemma_rows_map_absent(self.rows@, key),
            }
        }
        found.is_some()
    }

    /// Look up the value stored under a key.
    pub fn get(&self, key: u64) -> (r: Option<&V>)
        requires
            self.wf(),
        ensures
            match r {
                Some(v) => self.view().contains_key(key) && *v == self.view()[key],
                None => !self.view().contains_key(key),
            },
    {
        match self.find(key) {
            Some(i) => {
                proof {
                    lemma_rows_map_at(self.rows@, i as int);
                }
                Some(&self.rows[i].val)
            },
            None => {
                proof {
                    lemma_rows_map_absent(self.rows@, key);
                }
                None
            },
        }
    }

    /// Exclusive access to the value stored under a key that is present.
    pub fn get_mut(&mut self, key: u64) -> (r: &mut V)
        requires
            old(self).wf(),
            old(self).view().contains_key(key),
        ensures
            *r == old(self).view()[key],
            final(self).wf(),
            final(self).keys() == old(self).keys(),
            final(self).view() == old(self).view().insert(key, *final(r)),
    {
        broadcast use lemma_rows_map_update;

        let found = self.find(key);
        let i = match found {
            Some(i) => i,
            None => {
                proof {
                    lemma_rows_map_absent(self.rows@, key);
                }
                unreached()
            },
        };
        proof {
            lemma_rows_map_at(self.rows@, i as int);
        }
        &mut self.rows[i].val
    }

    /// Insert a value under a key, overwriting any previous value; a new
    /// key goes to the end of the order, an old key keeps its place.
    pub fn put(&mut self, key: u64, val: V)
        requires
            old(self).wf(),
        ensures
            final(self).wf(),
            final(self).view() == old(self).view().insert(key, val),
            final(self).keys() == if old(self).view().contains_key(key) {
                old(self).keys()
            } else {
                old(self).keys().push(key)
            },
    {
        let found = self.find(key);
        match found {
            Some(i) => {
                proof {
                    lemma_rows_map_contains_at(self.rows@, i as int);
                    lemma_rows_map_update(self.rows@, i as int, Row { key, val });
                }
                let slot = &mut self.rows[i];
                *slot = Row { key, val };
            },
            None => {
                proof {
                    lemma_rows_map_absent(self.rows@, key);
                }
                self.rows.push(Row { key, val });
                proof {
                    assert(self.rows@.drop_last() =~= old(self).rows@);
                    assert(rows_keys(self.rows@) =~= rows_keys(old(self).rows@).push(key));
                }
            },
        }
    }

    /// Remove a key, handing back its value; the order of the other keys
    /// is kept.
    pub fn remove(&mut self, key: u64) -> (r: Option<V>)
        requires
            old(self).wf(),
        ensures
            final(self).wf(),
            final(self).view() == old(self).view().remove(key),
            !final(self).view().contains_key(key),
            match r {
                Some(v) => old(self).view().contains_key(key) && v == old(self).view()[key],
                None => !old(self).view().contains_key(key) && *final(self) == *old(self),
            },
            old(self).view().contains_key(key) ==> exists|i: int|
                {
                    &&& 0 <= i < old(self).keys().len()
                    &&& old(self).keys()[i] == key
                    &&& final(self).keys() == old(self).keys().remove(i)
                },
    {
        let found = self.find(key);
        match found {
            Some(i) => {
                proof {
                    lemma_rows_map_contains_at(self.rows@, i as int);
                    lemma_rows_map_at(self.rows@, i as int);
                    lemma_rows_map_remove(self.rows@, i as int);
                }
                let row = self.rows.remove(i);
                proof {
                    assert(rows_keys(self.rows@) =~= rows_keys(old(self).rows@).remove(i as int));
                    assert(rows_keys(old(self).rows@)[i as int] == key);
                    assert(exists|j: int|
                        {
                            &&& 0 <= j < old(self).keys().len()
                            &&& old(self).keys()[j] == key
                            &&& self.keys() == old(self).keys().remove(j)
                        }) by {
                        assert(self.keys() == old(self).keys().remove(i as int));
                    }
                }
                Some(row.val)
            },
            None => {
                proof {
                    lemma_rows_map_absent(self.rows@, key);
                    assert(self.view() =~= self.view().remove(key));
                }
                None
            },
        }
    }
}

impl<V> Table<V> {
    /// The map's domain and the key sequence list the same keys.
    pub proof fn lemma_keys_dom(&self)
        ensures
            forall|k: u64| self.view().contains_key(k) <==> self.keys().contains(k),
    {
        lemma_rows_map_dom(self.rows@);
    }

    /// With unique row keys, the key sequence has no duplicates.
    pub proof fn lemma_keys_nodup(&self)
        requires
            self.wf(),
        ensures
            forall|j1: int, j2: int|
                0 <= j1 < j2 < self.keys().len() ==> self.keys()[j1] != self.keys()[j2],
    {
    }
}

/// The map contains every key that appears in some row.
pub(crate) proof fn lemma_rows_map_contains_at<V>(rows: Seq<Row<V>>, i: int)
    requires
        0 <= i < rows.len(),
    ensures
        rows_map(rows).contains_key(rows[i].key),
    decreases rows.len(),
{
    if i < rows.len() - 1 {
        lemma_rows_map_contains_at(rows.drop_last(), i);
    }
}

/// A key that appears in no row is not in the map.
pub(crate) proof fn lemma_rows_map_absent<V>(rows: Seq<Row<V>>, key: u64)
    requires
        forall|j: int| 0 <= j < rows.len() ==> rows[j].key != key,
    ensures
        !rows_map(rows).contains_key(key),
    decreases rows.len(),
{
    if rows.len() > 0 {
        lemma_rows_map_absent(rows.drop_last(), key);
    }
}

/// With unique keys, the map sends each row's key to that row's value.
pub(crate) proof fn lemma_rows_map_at<V>(rows: Seq<Row<V>>, i: int)
    requires
        0 <= i < rows.len(),
        forall|a: int, b: int| 0 <= a < b < rows.len() ==> rows[a].key != rows[b].key,
    ensures
        rows_map(rows).contains_key(rows[i].key),
        rows_map(rows)[rows[i].key] == rows[i].val,
    decreases rows.len(),
{
    if i < rows.len() - 1 {
        lemma_rows_map_at(rows.drop_last(), i);
    }
}

/// Updating a row in place, keeping its key, updates the map at that key.
pub(crate) broadcast proof fn lemma_rows_map_update<V>(rows: Seq<Row<V>>, i: int, row2: Row<V>)
    requires
        0 <= i < rows.len(),
        row2.key == rows[i].key,
        forall|a: int, b: int| 0 <= a < b < rows.len() ==> rows[a].key != rows[b].key,
    ensures
        rows_map(#[trigger] rows.update(i, row2)) == rows_map(rows).insert(row2.key, row2.val),
        rows_keys(rows.update(i, row2)) == rows_keys(rows),
    decreases rows.len(),
{
    let rows2 = rows.update(i, row2);
    assert(rows_keys(rows2) =~= rows_keys(rows));
    if i == rows.len() - 1 {
        assert(rows2.drop_last() =~= rows.drop_last());
        assert(rows_map(rows2) =~= rows_map(rows).insert(row2.key, row2.val));
    } else {
        assert(rows2.drop_last() =~= rows.drop_last().update(i, row2));
        lemma_rows_map_update(rows.drop_last(), i, row2);
        assert(rows_map(rows2) =~= rows_map(rows).insert(row2.key, row2.val));
    }
}

/// Removing a row removes exactly its key from the map, when keys are
/// unique.
pub(crate) proof fn lemma_rows_map_remove<V>(rows: Seq<Row<V>>, i: int)
    requires
        0 <= i < rows.len(),
        forall|a: int, b: int| 0 <= a < b < rows.len() ==> rows[a].key != rows[b].key,
    ensures
        rows_map(rows.remove(i)) == rows_map(rows).remove(rows[i].key),
    decreases rows.len(),
{
    let rows2 = rows.remove(i);
    if i == rows.len() - 1 {
        assert(rows2 =~= rows.drop_last());
        lemma_rows_map_absent(rows.drop_last(), rows[i].key);
        assert(rows_map(rows.drop_last()) =~= rows_map(rows).remove(rows[i].key));
    } else {
        assert(rows2.drop_last() =~= rows.drop_last().remove(i));
        assert(rows2.last() == rows.last());
        lemma_rows_map_remove(rows.drop_last(), i);
        assert(rows_map(rows2) =~= rows_map(rows).remove(rows[i].key));
    }
}

/// The map's domain is exactly the set of row keys.
pub(crate) proof fn lemma_rows_map_dom<V>(rows: Seq<Row<V>>)
    ensures
        forall|k: u64| rows_map(rows).contains_key(k) <==> rows_keys(rows).contains(k),
    decreases rows.len(),
{
    if rows.len() > 0 {
        lemma_rows_map_dom(rows.drop_last());
        assert forall|k: u64| rows_map(rows).contains_key(k) <==> rows_keys(rows).contains(k) by {
            assert(rows_keys(rows)[rows.len() - 1] == rows.last().key);
            if rows_keys(rows).contains(k) {
                let j = choose|j: int| 0 <= j < rows_keys(rows).len() && rows_keys(rows)[j] == k;
                if j < rows.len() - 1 {
                    assert(rows_keys(rows.drop_last())[j] == k);
                }
            }
            if rows_keys(rows.drop_last()).contains(k) {
                let j = choose|j: int|
                    0 <= j < rows_keys(rows.drop_last()).len() && rows_keys(rows.drop_last())[j]
                        == k;
                assert(rows_keys(rows)[j] == k);
            }
        }
    }
}

} // verus!
