//! Rows kept by their key.

use vstd::prelude::*;

verus! {

/// A row with a key.
pub trait Record: View {
    /// The key of a row.
    spec fn key_of(row: Self::V) -> i64;

    /// The key of this row.
    fn key(&self) -> (r: i64)
        ensures
            r == Self::key_of(self@),
    ;
}

/// Rows, no two of which have the same key.
pub struct Table<T: Record> {
    rows: Vec<T>,
}

/// The rows of a list by their keys.
pub open spec fn by_key<T: Record>(list: Seq<T>) -> Map<i64, T::V> {
    Map::new(
        |k: i64| exists|i: int| 0 <= i < list.len() && T::key_of(#[trigger] list[i]@) == k,
        |k: i64| list[choose|i: int| 0 <= i < list.len() && T::key_of(#[trigger] list[i]@) == k]@,
    )
}

/// Whether no two rows of a list have the same key.
pub open spec fn keys_differ<T: Record>(list: Seq<T>) -> bool {
    forall|i: int, j: int|
        0 <= i < j < list.len() ==> T::key_of(#[trigger] list[i]@) != T::key_of(
            #[trigger] list[j]@,
        )
}

/// Every row of a list stands under its key.
pub proof fn lemma_by_key<T: Record>(list: Seq<T>, i: int)
    requires
        keys_differ(list),
        0 <= i < list.len(),
    ensures
        by_key(list).contains_key(T::key_of(list[i]@)),
        by_key(list)[T::key_of(list[i]@)] == list[i]@,
{
    let k = T::key_of(list[i]@);
    let c = choose|c: int| 0 <= c < list.len() && T::key_of(#[trigger] list[c]@) == k;
    assert(0 <= c < list.len() && T::key_of(list[c]@) == k);
    assert(c == i);
}

proof fn lemma_by_key_finite<T: Record>(list: Seq<T>)
    ensures
        by_key(list).dom().finite(),
    decreases list.len(),
{
    if list.len() == 0 {
        assert(by_key(list).dom() =~= Set::empty());
    } else {
        let rest = list.drop_last();
        let k = T::key_of(list.last()@);
        lemma_by_key_finite(rest);
        assert forall|x: i64| by_key(list).contains_key(x) implies by_key(rest).dom().insert(
            k,
        ).contains(x) by {
            let i = choose|i: int| 0 <= i < list.len() && T::key_of(#[trigger] list[i]@) == x;
            if i < rest.len() {
                assert(rest[i] == list[i]);
            }
        }
        vstd::set_lib::lemma_set_subset_finite(by_key(rest).dom().insert(k), by_key(list).dom());
    }
}

impl<T: Record> View for Table<T> {
    type V = Map<i64, T::V>;

    closed spec fn view(&self) -> Map<i64, T::V> {
        by_key(self.rows@)
    }
}

impl<T: Record> Table<T> {
    /// Whether the rows have different keys.
    pub closed spec fn wf(&self) -> bool {
        keys_differ(self.rows@)
    }

    /// The keys of the rows, in the order in which the rows are kept.
    pub closed spec fn keys(&self) -> Seq<i64> {
        Seq::new(self.rows@.len(), |i: int| T::key_of(self.rows@[i]@))
    }

    /// The keys of the rows are the keys of the view, each once.
    pub proof fn lemma_keys(&self)
        requires
            self.wf(),
        ensures
            self@.dom().finite(),
            forall|i: int|
                0 <= i < self.keys().len() ==> self@.contains_key(#[trigger] self.keys()[i]),
            forall|k: i64| #[trigger]
                self@.contains_key(k) ==> exists|i: int|
                    0 <= i < self.keys().len() && #[trigger] self.keys()[i] == k,
            forall|i: int, j: int|
                0 <= i < j < self.keys().len() ==> #[trigger] self.keys()[i]
                    != #[trigger] self.keys()[j],
            forall|k: i64| #[trigger] self@.contains_key(k) ==> T::key_of(self@[k]) == k,
    {
        lemma_by_key_finite(self.rows@);
        assert forall|i: int| 0 <= i < self.keys().len() implies self@.contains_key(
            #[trigger] self.keys()[i],
        ) by {
            lemma_by_key(self.rows@, i);
        }
        assert forall|k: i64| #[trigger] self@.contains_key(k) implies (exists|i: int|
            0 <= i < self.keys().len() && #[trigger] self.keys()[i] == k) && T::key_of(self@[k])
            == k by {
            let i = choose|i: int|
                0 <= i < self.rows@.len() && T::key_of(#[trigger] self.rows@[i]@) == k;
            assert(self.keys()[i] == k);
            lemma_by_key(self.rows@, i);
        }
    }

    /// The table that holds the rows of a list, if no two have the same key.
    pub fn from_rows(rows: Vec<T>) -> (r: Option<Table<T>>)
        ensures
            match r {
                Some(t) => keys_differ(rows@) && t.wf() && t@ == by_key(rows@),
                None => !keys_differ(rows@),
            },
    {
        let mut i: usize = 0;
        while i < rows.len()
            invariant
                0 <= i <= rows@.len(),
                keys_differ(rows@.take(i as int)),
            decreases rows@.len() - i,
        {
            let k = rows[i].key();
            let mut j: usize = 0;
            while j < i
                invariant
                    0 <= j <= i < rows@.len(),
                    k == T::key_of(rows@[i as int]@),
                    forall|m: int| 0 <= m < j ==> T::key_of(#[trigger] rows@[m]@) != k,
                decreases i - j,
            {
                if rows[j].key() == k {
                    assert(T::key_of(rows@[j as int]@) == T::key_of(rows@[i as int]@));
                    return None;
                }
                j += 1;
            }
            proof {
                let seen = rows@.take(i as int);
                let more = rows@.take(i as int + 1);
                assert(more =~= seen.push(rows@[i as int]));
                assert forall|a: int, b: int| 0 <= a < b < more.len() implies T::key_of(
                    #[trigger] more[a]@,
                ) != T::key_of(#[trigger] more[b]@) by {
                    if b < i {
                        assert(more[a] == seen[a] && more[b] == seen[b]);
                    } else {
                        assert(more[a] == rows@[a]);
                    }
                }
            }
            i += 1;
        }
        assert(rows@.take(rows@.len() as int) =~= rows@);
        Some(Table { rows })
    }

    /// How many rows there are.
    pub fn count(&self) -> (r: usize)
        ensures
            r == self.keys().len(),
    {
        self.rows.len()
    }

    /// The row at index `i`.
    pub fn at(&self, i: usize) -> (r: &T)
        requires
            self.wf(),
            i < self.keys().len(),
        ensures
            r@ == self@[self.keys()[i as int]],
            T::key_of(r@) == self.keys()[i as int],
    {
        proof {
            lemma_by_key(self.rows@, i as int);
        }
        &self.rows[i]
    }

    /// The index of the row with this key.
    fn index_of(&self, key: i64) -> (r: Option<usize>)
        requires
            self.wf(),
        ensures
            match r {
                Some(i) => i < self.rows@.len() && T::key_of(self.rows@[i as int]@) == key
                    && self@.contains_key(key) && self@[key] == self.rows@[i as int]@,
                None => !self@.contains_key(key),
            },
    {
        let mut i: usize = 0;
        while i < self.rows.len()
            invariant
                self.wf(),
                0 <= i <= self.rows@.len(),
                forall|m: int| 0 <= m < i ==> T::key_of(#[trigger] self.rows@[m]@) != key,
            decreases self.rows@.len() - i,
        {
            if self.rows[i].key() == key {
                proof {
                    lemma_by_key(self.rows@, i as int);
                }
                return Some(i);
            }
            i += 1;
        }
        None
    }

    /// The row with this key.
    pub fn find(&self, key: i64) -> (r: Option<&T>)
        requires
            self.wf(),
        ensures
            match r {
                Some(row) => self@.contains_key(key) && row@ == self@[key],
                None => !self@.contains_key(key),
            },
    {
        match self.index_of(key) {
            Some(i) => Some(&self.rows[i]),
            None => None,
        }
    }

    /// Puts a row in, in place of the one with the same key if there is one.
    pub fn put(&mut self, row: T)
        requires
            old(self).wf(),
        ensures
            final(self).wf(),
            final(self)@ == old(self)@.insert(T::key_of(row@), row@),
    {
        let key = row.key();
        let ghost before = self.rows@;
        let at = self.index_of(key);
        match at {
            Some(i) => {
                self.rows.set(i, row);
                proof {
                    let after = before.update(i as int, row);
                    assert(self.rows@ == after);
                    assert(keys_differ(after));
                    assert forall|k: i64| #[trigger] by_key(after).contains_key(k) <==> by_key(
                        before,
                    ).insert(key, row@).contains_key(k) by {
                        if by_key(after).contains_key(k) && k != key {
                            let m = choose|m: int|
                                0 <= m < after.len() && T::key_of(#[trigger] after[m]@) == k;
                            assert(before[m] == after[m]);
                        }
                        if by_key(before).contains_key(k) {
                            let m = choose|m: int|
                                0 <= m < before.len() && T::key_of(#[trigger] before[m]@) == k;
                            assert(T::key_of(after[m]@) == k);
                        }
                        if k == key {
                            assert(T::key_of(after[i as int]@) == k);
                        }
                    }
                    assert forall|k: i64| #[trigger] by_key(after).contains_key(k) implies by_key(
                        after,
                    )[k] == by_key(before).insert(key, row@)[k] by {
                        let m = choose|m: int|
                            0 <= m < after.len() && T::key_of(#[trigger] after[m]@) == k;
                        lemma_by_key(after, m);
                        if m != i {
                            assert(before[m] == after[m]);
                            lemma_by_key(before, m);
                            assert(T::key_of(after[i as int]@) == key);
                        }
                    }
                    assert(by_key(after) =~= by_key(before).insert(key, row@));
                }
            },
            None => {
                self.rows.push(row);
                proof {
                    let after = before.push(row);
                    assert(self.rows@ == after);
                    assert forall|a: int, b: int| 0 <= a < b < after.len() implies T::key_of(
                        #[trigger] after[a]@,
                    ) != T::key_of(#[trigger] after[b]@) by {
                        assert(after[a] == before[a]);
                        if b < before.len() {
                            assert(after[b] == before[b]);
                        } else {
                            lemma_by_key(before, a);
                        }
                    }
                    assert forall|k: i64| #[trigger] by_key(after).contains_key(k) <==> by_key(
                        before,
                    ).insert(key, row@).contains_key(k) by {
                        if by_key(after).contains_key(k) && k != key {
                            let m = choose|m: int|
                                0 <= m < after.len() && T::key_of(#[trigger] after[m]@) == k;
                            assert(before[m] == after[m]);
                        }
                        if by_key(before).contains_key(k) {
                            let m = choose|m: int|
                                0 <= m < before.len() && T::key_of(#[trigger] before[m]@) == k;
                            assert(T::key_of(after[m]@) == k);
                        }
                        if k == key {
                            assert(T::key_of(after[before.len() as int]@) == k);
                        }
                    }
                    assert forall|k: i64| #[trigger] by_key(after).contains_key(k) implies by_key(
                        after,
                    )[k] == by_key(before).insert(key, row@)[k] by {
                        let m = choose|m: int|
                            0 <= m < after.len() && T::key_of(#[trigger] after[m]@) == k;
                        lemma_by_key(after, m);
                        if m < before.len() {
                            assert(before[m] == after[m]);
                            lemma_by_key(before, m);
                        }
                    }
                    assert(by_key(after) =~= by_key(before).insert(key, row@));
                }
            },
        }
    }
}

} // verus!
