//! The record store: an in-memory mapping from identifier to task record.
//! The state is modelled as the sequence of entries in insertion order; the
//! mapping it denotes is `map_of`, and every operation's contract is stated
//! against both.

use vstd::prelude::*;
use crate::record::{Todo, TodoView};

verus! {

/// True when no two entries share a key.
pub open spec fn unique_keys(s: Seq<(int, TodoView)>) -> bool {
    forall|i: int, j: int| 0 <= i < j < s.len() ==> s[i].0 != s[j].0
}

/// True when some entry holds the key.
pub open spec fn has_key(s: Seq<(int, TodoView)>, k: int) -> bool {
    exists|i: int| 0 <= i < s.len() && s[i].0 == k
}

/// The mapping an entry sequence denotes; later entries win.
pub open spec fn map_of(s: Seq<(int, TodoView)>) -> Map<int, TodoView>
    decreases s.len(),
{
    if s.len() == 0 {
        Map::empty()
    } else {
        map_of(s.drop_last()).insert(s.last().0, s.last().1)
    }
}

/// The records themselves, in insertion order.
pub open spec fn values_of(s: Seq<(int, TodoView)>) -> Seq<TodoView> {
    s.map_values(|e: (int, TodoView)| e.1)
}

/// The views of a list of records, element by element.
pub open spec fn views_of_list(s: Seq<Todo>) -> Seq<TodoView> {
    s.map_values(|t: Todo| t@)
}

/// Storing under a key: replace the entry that holds it, or append a new one.
pub open spec fn spec_insert(s: Seq<(int, TodoView)>, k: int, v: TodoView) -> Seq<(int, TodoView)> {
    if has_key(s, k) {
        s.update(choose|i: int| 0 <= i < s.len() && s[i].0 == k, (k, v))
    } else {
        s.push((k, v))
    }
}

/// Removing a key: drop the entry that holds it, or leave the sequence alone.
pub open spec fn spec_remove(s: Seq<(int, TodoView)>, k: int) -> Seq<(int, TodoView)> {
    if has_key(s, k) {
        s.remove(choose|i: int| 0 <= i < s.len() && s[i].0 == k)
    } else {
        s
    }
}

/// A key is in the denoted map exactly when some entry holds it.
pub proof fn lemma_map_of_has_key(s: Seq<(int, TodoView)>, k: int)
    ensures
        map_of(s).contains_key(k) <==> has_key(s, k),
    decreases s.len(),
{
    if s.len() > 0 {
        lemma_map_of_has_key(s.drop_last(), k);
        if has_key(s.drop_last(), k) {
            let i = choose|i: int| 0 <= i < s.drop_last().len() && s.drop_last()[i].0 == k;
            assert(s[i].0 == k);
        }
        if has_key(s, k) && s.last().0 != k {
            let i = choose|i: int| 0 <= i < s.len() && s[i].0 == k;
            assert(s.drop_last()[i].0 == k);
        }
    }
}

/// With unique keys, the denoted map sends a key to the one entry holding it.
pub proof fn lemma_map_of_index(s: Seq<(int, TodoView)>, k: int, i: int)
    requires
        unique_keys(s),
        0 <= i < s.len(),
        s[i].0 == k,
    ensures
        map_of(s).contains_key(k),
        map_of(s)[k] == s[i].1,
    decreases s.len(),
{
    if i == s.len() - 1 {
    } else {
        assert(s.drop_last()[i] == s[i]);
        lemma_map_of_index(s.drop_last(), k, i);
        assert(s.last().0 != k);
    }
}

/// Replacing the entry at the key's index denotes insertion into the map.
proof fn lemma_map_of_update(s: Seq<(int, TodoView)>, i: int, k: int, v: TodoView)
    requires
        unique_keys(s),
        0 <= i < s.len(),
        s[i].0 == k,
    ensures
        map_of(s.update(i, (k, v))) == map_of(s).insert(k, v),
    decreases s.len(),
{
    let u = s.update(i, (k, v));
    if i == s.len() - 1 {
        assert(u.drop_last() =~= s.drop_last());
        assert(map_of(s.drop_last()).insert(k, s.last().1).insert(k, v) =~= map_of(
            s.drop_last(),
        ).insert(k, v));
    } else {
        assert(s.drop_last()[i] == s[i]);
        lemma_map_of_update(s.drop_last(), i, k, v);
        assert(u.drop_last() =~= s.drop_last().update(i, (k, v)));
        assert(u.last() == s.last());
        assert(s.last().0 != k);
        assert(map_of(s.drop_last()).insert(k, v).insert(s.last().0, s.last().1) =~= map_of(
            s.drop_last(),
        ).insert(s.last().0, s.last().1).insert(k, v));
    }
}

/// Dropping the entry at the key's index denotes removal from the map.
proof fn lemma_map_of_remove_at(s: Seq<(int, TodoView)>, i: int)
    requires
        unique_keys(s),
        0 <= i < s.len(),
    ensures
        map_of(s.remove(i)) == map_of(s).remove(s[i].0),
    decreases s.len(),
{
    let k = s[i].0;
    let r = s.remove(i);
    if i == s.len() - 1 {
        assert(r =~= s.drop_last());
        assert(!has_key(s.drop_last(), k));
        lemma_map_of_has_key(s.drop_last(), k);
        assert(map_of(s.drop_last()).insert(k, s.last().1).remove(k) =~= map_of(s.drop_last()));
    } else {
        assert(s.drop_last()[i] == s[i]);
        lemma_map_of_remove_at(s.drop_last(), i);
        assert(r.drop_last() =~= s.drop_last().remove(i));
        assert(r.last() == s.last());
        assert(s.last().0 != k);
        assert(map_of(s.drop_last()).insert(s.last().0, s.last().1).remove(k) =~= map_of(
            s.drop_last(),
        ).remove(k).insert(s.last().0, s.last().1));
    }
}

/// With unique keys, the denoted map has exactly one entry per element.
pub proof fn lemma_map_of_len(s: Seq<(int, TodoView)>)
    requires
        unique_keys(s),
    ensures
        map_of(s).dom().finite(),
        map_of(s).dom().len() == s.len(),
    decreases s.len(),
{
    if s.len() > 0 {
        lemma_map_of_len(s.drop_last());
        lemma_map_of_has_key(s.drop_last(), s.last().0);
        assert(!has_key(s.drop_last(), s.last().0)) by {
            if has_key(s.drop_last(), s.last().0) {
                let i = choose|i: int|
                    0 <= i < s.drop_last().len() && s.drop_last()[i].0 == s.last().0;
                assert(s[i].0 == s.last().0);
            }
        }
        assert(map_of(s).dom() =~= map_of(s.drop_last()).dom().insert(s.last().0));
    }
}

/// The store: records keyed by id, entries kept in insertion order.
pub struct TodoStore {
    items: Vec<(usize, Todo)>,
}

impl View for TodoStore {
    type V = Seq<(int, TodoView)>;

    closed spec fn view(&self) -> Seq<(int, TodoView)> {
        self.items@.map_values(|e: (usize, Todo)| (e.0 as int, e.1@))
    }
}

impl TodoStore {
    /// The store's invariant: no two entries share a key.
    pub open spec fn wf(&self) -> bool {
        unique_keys(self@)
    }

    /// A fresh store holds nothing.
    pub fn new() -> (r: TodoStore)
        ensures
            r.wf(),
            r@ == Seq::<(int, TodoView)>::empty(),
    {
        let r = TodoStore { items: Vec::new() };
        proof {
            assert(r@ =~= Seq::<(int, TodoView)>::empty());
        }
        r
    }

    /// Index of the entry holding the key, if any.
    fn find(&self, key: usize) -> (r: Option<usize>)
        ensures
            match r {
                Some(i) => i < self@.len() && self@[i as int].0 == key as int,
                None => !has_key(self@, key as int),
            },
    {
        let n = self.items.len();
        let mut i: usize = 0;
        while i < n
            invariant
                i <= n,
                n == self.items@.len(),
                forall|j: int| 0 <= j < i ==> self@[j].0 != key as int,
            decreases n - i,
        {
            if self.items[i].0 == key {
                proof {
                    assert(self@[i as int].0 == key as int);
                }
                return Some(i);
            }
            proof {
                assert(self@[i as int].0 != key as int);
            }
            i += 1;
        }
        None
    }

    /// Whether a record is stored under the id.
    pub fn contains(&self, id: usize) -> (r: bool)
        ensures
            r == has_key(self@, id as int),
            r == map_of(self@).contains_key(id as int),
    {
        proof {
            lemma_map_of_has_key(self@, id as int);
        }
        match self.find(id) {
            Some(i) => {
                proof {
                    assert(self@[i as int].0 == id as int);
                }
                true
            },
            None => false,
        }
    }

    /// The stored record under the id, if any.
    pub fn get(&self, id: usize) -> (r: Option<Todo>)
        requires
            self.wf(),
        ensures
            match r {
                Some(t) => map_of(self@).contains_key(id as int) && t@ == map_of(self@)[
                    id as int
                ],
                None => !map_of(self@).contains_key(id as int),
            },
    {
        match self.find(id) {
            Some(i) => {
                proof {
                    lemma_map_of_index(self@, id as int, i as int);
                }
                Some(self.items[i].1.clone())
            },
            None => {
                proof {
                    lemma_map_of_has_key(self@, id as int);
                }
                None
            },
        }
    }

    /// Stores the record under the key, overwriting any previous holder.
    fn put(&mut self, key: usize, todo: Todo)
        requires
            old(self).wf(),
        ensures
            final(self).wf(),
            final(self)@ == spec_insert(old(self)@, key as int, todo@),
            map_of(final(self)@) == map_of(old(self)@).insert(key as int, todo@),
    {
        let ghost s0 = self@;
        let ghost tv = todo@;
        match self.find(key) {
            Some(i) => {
                self.items[i] = (key, todo);
                proof {
                    assert(self@ =~= s0.update(i as int, (key as int, tv)));
                    let c = choose|j: int| 0 <= j < s0.len() && s0[j].0 == key as int;
                    assert(c == i as int);
                    assert(self@ == spec_insert(s0, key as int, tv));
                    lemma_map_of_update(s0, i as int, key as int, tv);
                    assert(unique_keys(self@)) by {
                        assert(forall|j: int| 0 <= j < self@.len() ==> self@[j].0 == s0[j].0);
                    }
                }
            },
            None => {
                self.items.push((key, todo));
                proof {
                    assert(self@ =~= s0.push((key as int, tv)));
                    assert(self@.drop_last() =~= s0);
                    lemma_map_of_has_key(s0, key as int);
                    assert(unique_keys(self@)) by {
                        assert(forall|j: int| 0 <= j < s0.len() ==> self@[j] == s0[j]);
                    }
                }
            },
        }
    }

    /// Stores the record under its own id, inserting or fully overwriting;
    /// never an error.
    pub fn insert(&mut self, todo: Todo)
        requires
            old(self).wf(),
        ensures
            final(self).wf(),
            final(self)@ == spec_insert(old(self)@, todo.id as int, todo@),
            map_of(final(self)@) == map_of(old(self)@).insert(todo.id as int, todo@),
    {
        let key = todo.id;
        self.put(key, todo);
    }

    /// Replaces the record under `id` only if one is already there; reports
    /// whether it was, and otherwise leaves the store untouched.
    pub fn update(&mut self, id: usize, todo: Todo) -> (r: bool)
        requires
            old(self).wf(),
        ensures
            final(self).wf(),
            r == map_of(old(self)@).contains_key(id as int),
            r ==> final(self)@ == spec_insert(old(self)@, id as int, todo@) && map_of(
                final(self)@,
            ) == map_of(old(self)@).insert(id as int, todo@),
            !r ==> final(self)@ == old(self)@,
    {
        if self.contains(id) {
            self.put(id, todo);
            true
        } else {
            false
        }
    }

    /// Removes the entry under the id if present; removing an absent id is a
    /// no-op, never an error.
    pub fn delete(&mut self, id: usize)
        requires
            old(self).wf(),
        ensures
            final(self).wf(),
            final(self)@ == spec_remove(old(self)@, id as int),
            map_of(final(self)@) == map_of(old(self)@).remove(id as int),
    {
        let ghost s0 = self@;
        match self.find(id) {
            Some(i) => {
                self.items.remove(i);
                proof {
                    assert(self@ =~= s0.remove(i as int));
                    let c = choose|j: int| 0 <= j < s0.len() && s0[j].0 == id as int;
                    assert(c == i as int);
                    assert(self@ == spec_remove(s0, id as int));
                    lemma_map_of_remove_at(s0, i as int);
                    assert(unique_keys(self@)) by {
                        assert(forall|a: int, b: int|
                            0 <= a < b < self@.len() ==> self@[a].0 != self@[b].0) by {
                            assert(forall|a: int|
                                0 <= a < self@.len() ==> self@[a] == (if a < i as int {
                                    s0[a]
                                } else {
                                    s0[a + 1]
                                }));
                        }
                    }
                }
            },
            None => {
                proof {
                    lemma_map_of_has_key(s0, id as int);
                    assert(map_of(s0).remove(id as int) =~= map_of(s0));
                }
            },
        }
    }

    /// Every stored record, in insertion order; an empty store yields an
    /// empty list.
    pub fn list(&self) -> (r: Vec<Todo>)
        ensures
            views_of_list(r@) == values_of(self@),
            r@.len() == self@.len(),
    {
        let n = self.items.len();
        let mut out: Vec<Todo> = Vec::new();
        proof {
            assert(views_of_list(out@) =~= values_of(self@.subrange(0, 0)));
        }
        let mut i: usize = 0;
        while i < n
            invariant
                i <= n,
                n == self.items@.len(),
                out@.len() == i,
                views_of_list(out@) == values_of(self@.subrange(0, i as int)),
            decreases n - i,
        {
            let ghost out0 = out@;
            let t = self.items[i].1.clone();
            let ghost tv = t@;
            out.push(t);
            proof {
                assert(self@[i as int] == (
                    self.items@[i as int].0 as int,
                    self.items@[i as int].1@,
                ));
                assert(tv == self@[i as int].1);
                assert(out@[i as int]@ == tv);
                assert(forall|j: int|
                    0 <= j < out@.len() ==> views_of_list(out@)[j] == out@[j]@);
                assert(forall|j: int|
                    0 <= j < out0.len() ==> views_of_list(out0)[j] == out0[j]@);
                assert(forall|j: int| 0 <= j < i as int ==> out@[j] == out0[j]);
                assert(forall|j: int|
                    0 <= j < i as int + 1 ==> values_of(self@.subrange(0, i as int + 1))[j]
                        == self@[j].1);
                assert(forall|j: int|
                    0 <= j < i as int ==> values_of(self@.subrange(0, i as int))[j] == self@[j].1);
                assert(out@ == out0.push(t));
                assert(out@.len() == i as int + 1);
                assert(views_of_list(out@).len() == i as int + 1);
                assert(values_of(self@.subrange(0, i as int + 1)).len() == i as int + 1);
                assert forall|j: int|
                    0 <= j < i as int + 1 implies views_of_list(out@)[j] == values_of(
                    self@.subrange(0, i as int + 1),
                )[j] by {
                    let sub = self@.subrange(0, i as int + 1);
                    assert(sub[j] == self@[j]);
                    assert(values_of(sub)[j] == sub[j].1);
                    assert(views_of_list(out@)[j] == out@[j]@);
                    if j < i as int {
                        assert(out@[j] == out0[j]);
                        assert(views_of_list(out0)[j] == out0[j]@);
                        assert(values_of(self@.subrange(0, i as int))[j] == self@.subrange(
                            0,
                            i as int,
                        )[j].1);
                        assert(out0[j]@ == self@[j].1);
                    } else {
                        assert(out@[j]@ == tv);
                    }
                }
                assert(views_of_list(out@) =~= values_of(self@.subrange(0, i as int + 1)));
            }
            i += 1;
        }
        proof {
            assert(self@.subrange(0, n as int) =~= self@);
        }
        out
    }
}

/// After storing a record under its own id, looking that id up yields
/// exactly that record: the round trip from insert to get.
pub proof fn lemma_insert_then_get(s: Seq<(int, TodoView)>, t: TodoView)
    requires
        unique_keys(s),
    ensures
        map_of(spec_insert(s, t.id, t)).contains_key(t.id),
        map_of(spec_insert(s, t.id, t))[t.id] == t,
{
    if has_key(s, t.id) {
        let i = choose|i: int| 0 <= i < s.len() && s[i].0 == t.id;
        lemma_map_of_update(s, i, t.id, t);
    } else {
        assert(spec_insert(s, t.id, t).drop_last() =~= s);
    }
}

/// Deleting an id is idempotent: a second deletion of the same id changes
/// nothing, and both deletions report the same success.
pub proof fn lemma_delete_idempotent(s: Seq<(int, TodoView)>, k: int)
    requires
        unique_keys(s),
    ensures
        spec_remove(spec_remove(s, k), k) == spec_remove(s, k),
{
    if has_key(s, k) {
        let i = choose|i: int| 0 <= i < s.len() && s[i].0 == k;
        let r = s.remove(i);
        assert(!has_key(r, k)) by {
            assert(forall|a: int|
                0 <= a < r.len() ==> r[a] == (if a < i {
                    s[a]
                } else {
                    s[a + 1]
                }));
        }
    }
}

/// The store a sequence of inserts leaves behind, starting from empty.
pub open spec fn store_after(todos: Seq<TodoView>) -> Seq<(int, TodoView)>
    decreases todos.len(),
{
    if todos.len() == 0 {
        Seq::empty()
    } else {
        spec_insert(store_after(todos.drop_last()), todos.last().id, todos.last())
    }
}

/// Inserting records with pairwise distinct ids into a fresh store leaves
/// exactly one entry per record.
pub proof fn lemma_distinct_inserts_count(todos: Seq<TodoView>)
    requires
        forall|i: int, j: int| 0 <= i < j < todos.len() ==> todos[i].id != todos[j].id,
    ensures
        unique_keys(store_after(todos)),
        store_after(todos).len() == todos.len(),
        map_of(store_after(todos)).dom().len() == todos.len(),
        forall|k: int| has_key(store_after(todos), k) ==> exists|i: int|
            0 <= i < todos.len() && todos[i].id == k,
    decreases todos.len(),
{
    if todos.len() > 0 {
        let dl = todos.drop_last();
        assert(forall|i: int| 0 <= i < dl.len() ==> dl[i] == todos[i]);
        lemma_distinct_inserts_count(dl);
        let prev = store_after(dl);
        let t = todos.last();
        assert(!has_key(prev, t.id)) by {
            if has_key(prev, t.id) {
                let i = choose|i: int| 0 <= i < dl.len() && dl[i].id == t.id;
                assert(todos[i].id == todos[todos.len() - 1].id);
            }
        }
        let cur = store_after(todos);
        assert(cur == prev.push((t.id, t)));
        assert(forall|j: int| 0 <= j < prev.len() ==> cur[j] == prev[j]);
        assert forall|k: int| has_key(cur, k) implies exists|i: int|
            0 <= i < todos.len() && todos[i].id == k by {
            let a = choose|a: int| 0 <= a < cur.len() && cur[a].0 == k;
            if a < prev.len() {
                assert(has_key(prev, k));
                let i = choose|i: int| 0 <= i < dl.len() && dl[i].id == k;
                assert(todos[i].id == k);
            } else {
                assert(todos[todos.len() - 1].id == k);
            }
        }
    }
    lemma_map_of_len(store_after(todos));
}

} // verus!
