//! Maps kept in the order of their keys.
//!
//! A key is a row of texts. Rows are ordered by the first text in which they
//! differ, and a row before the longer ones that it begins.

use vstd::prelude::*;
use vstd::string::*;

use crate::text;

verus! {

pub open spec fn row_before(a: Seq<Seq<char>>, b: Seq<Seq<char>>) -> bool
    decreases a.len(),
{
    if b.len() == 0 {
        false
    } else if a.len() == 0 {
        true
    } else if a[0] != b[0] {
        text::before(a[0], b[0])
    } else {
        row_before(a.skip(1), b.skip(1))
    }
}

pub proof fn lemma_row_irreflexive(a: Seq<Seq<char>>)
    ensures
        !row_before(a, a),
    decreases a.len(),
{
    if a.len() > 0 {
        lemma_row_irreflexive(a.skip(1));
    }
}

pub proof fn lemma_row_total(a: Seq<Seq<char>>, b: Seq<Seq<char>>)
    ensures
        row_before(a, b) || a == b || row_before(b, a),
    decreases a.len(),
{
    if a.len() > 0 && b.len() > 0 {
        if a[0] == b[0] {
            lemma_row_total(a.skip(1), b.skip(1));
            if a.skip(1) == b.skip(1) {
                assert(a =~= seq![a[0]] + a.skip(1));
                assert(b =~= seq![b[0]] + b.skip(1));
            }
        } else {
            text::lemma_before_total(a[0], b[0]);
        }
    } else if a.len() == 0 && b.len() == 0 {
        assert(a =~= b);
    }
}

pub proof fn lemma_row_transitive(a: Seq<Seq<char>>, b: Seq<Seq<char>>, c: Seq<Seq<char>>)
    requires
        row_before(a, b),
        row_before(b, c),
    ensures
        row_before(a, c),
    decreases a.len(),
{
    if a.len() > 0 && b.len() > 0 && c.len() > 0 {
        if a[0] == b[0] && b[0] == c[0] {
            lemma_row_transitive(a.skip(1), b.skip(1), c.skip(1));
        } else if a[0] != b[0] && b[0] != c[0] {
            text::lemma_before_transitive(a[0], b[0], c[0]);
            text::lemma_before_irreflexive(a[0]);
        }
    }
}

fn row_comes_before(a: &Vec<String>, b: &Vec<String>) -> (r: bool)
    ensures
        r == row_before(text::views(a@), text::views(b@)),
{
    let ghost x = text::views(a@);
    let ghost y = text::views(b@);
    let mut i: usize = 0;
    assert(x.skip(0) =~= x);
    assert(y.skip(0) =~= y);
    while i < a.len() && i < b.len() && text::same(a[i].as_str(), b[i].as_str())
        invariant
            i <= a@.len(),
            i <= b@.len(),
            x == text::views(a@),
            y == text::views(b@),
            row_before(x, y) == row_before(x.skip(i as int), y.skip(i as int)),
        decreases a@.len() - i,
    {
        assert(x.skip(i as int).skip(1) =~= x.skip(i + 1));
        assert(y.skip(i as int).skip(1) =~= y.skip(i + 1));
        i = i + 1;
    }
    if i >= b.len() {
        false
    } else if i >= a.len() {
        true
    } else {
        text::comes_before(a[i].as_str(), b[i].as_str())
    }
}

fn same_row(a: &Vec<String>, b: &Vec<String>) -> (r: bool)
    ensures
        r == (text::views(a@) == text::views(b@)),
{
    let ghost x = text::views(a@);
    let ghost y = text::views(b@);
    if a.len() != b.len() {
        assert(x.len() != y.len());
        return false;
    }
    let mut i: usize = 0;
    while i < a.len()
        invariant
            i <= a@.len(),
            a@.len() == b@.len(),
            x == text::views(a@),
            y == text::views(b@),
            forall|j: int| 0 <= j < i ==> x[j] == y[j],
        decreases a@.len() - i,
    {
        if !text::same(a[i].as_str(), b[i].as_str()) {
            assert(x[i as int] != y[i as int]);
            return false;
        }
        i = i + 1;
    }
    assert(x =~= y);
    true
}

/// A map from rows of texts to values, its entries in the order of the keys.
#[derive(Debug, Clone)]
pub struct SortedMap<V> {
    pub entries: Vec<(Vec<String>, V)>,
}

impl<V> SortedMap<V> {
    /// The keys in order.
    pub open spec fn keys(self) -> Seq<Seq<Seq<char>>> {
        self.entries@.map_values(|e: (Vec<String>, V)| text::views(e.0@))
    }

    /// The values in the order of their keys.
    pub open spec fn values(self) -> Seq<V> {
        self.entries@.map_values(|e: (Vec<String>, V)| e.1)
    }

    /// The keys ascend, each of them once.
    pub open spec fn wf(self) -> bool {
        forall|i: int, j: int|
            0 <= i < j < self.keys().len() ==> row_before(
                #[trigger] self.keys()[i],
                #[trigger] self.keys()[j],
            )
    }
}

impl<V> View for SortedMap<V> {
    type V = Map<Seq<Seq<char>>, V>;

    open spec fn view(&self) -> Map<Seq<Seq<char>>, V> {
        Map::new(
            |k: Seq<Seq<char>>| self.keys().contains(k),
            |k: Seq<Seq<char>>| self.values()[self.keys().index_of(k)],
        )
    }
}

impl<V> SortedMap<V> {
    /// No key stands twice.
    pub proof fn lemma_keys_distinct(&self)
        requires
            self.wf(),
        ensures
            self.keys().no_duplicates(),
    {
        let keys = self.keys();
        assert forall|i: int, j: int| 0 <= i < keys.len() && 0 <= j < keys.len() && i != j implies keys[i]
            != keys[j] by {
            if i < j {
                assert(row_before(keys[i], keys[j]));
            } else {
                assert(row_before(keys[j], keys[i]));
            }
            lemma_row_irreflexive(keys[i]);
        }
    }

    /// What stands at an index is what the map holds under the key there.
    pub proof fn lemma_at(&self, i: int)
        requires
            self.wf(),
            0 <= i < self.keys().len(),
        ensures
            self@.contains_key(self.keys()[i]),
            self@[self.keys()[i]] == self.values()[i],
    {
        self.lemma_keys_distinct();
        assert(self.keys().contains(self.keys()[i]));
        let j = self.keys().index_of(self.keys()[i]);
        assert(self.keys()[j] == self.keys()[i]);
    }

    pub fn new() -> (r: SortedMap<V>)
        ensures
            r.wf(),
            r@ == Map::<Seq<Seq<char>>, V>::empty(),
            r.entries@.len() == 0,
    {
        let r = SortedMap { entries: Vec::new() };
        assert(r@ =~= Map::<Seq<Seq<char>>, V>::empty());
        r
    }

    /// Where `key` stands, or else where it belongs.
    fn locate(&self, key: &Vec<String>) -> (r: (bool, usize))
        requires
            self.wf(),
        ensures
            r.1 <= self.entries@.len(),
            r.0 ==> r.1 < self.entries@.len() && self.keys()[r.1 as int] == text::views(key@),
            r.0 == self@.contains_key(text::views(key@)),
            !r.0 ==> (forall|j: int|
                0 <= j < r.1 ==> row_before(#[trigger] self.keys()[j], text::views(key@))),
            !r.0 ==> (forall|j: int|
                r.1 <= j < self.keys().len() ==> row_before(
                    text::views(key@),
                    #[trigger] self.keys()[j],
                )),
    {
        let ghost k = text::views(key@);
        let mut i: usize = 0;
        while i < self.entries.len() && row_comes_before(&self.entries[i].0, key)
            invariant
                i <= self.entries@.len(),
                k == text::views(key@),
                forall|j: int| 0 <= j < i ==> row_before(#[trigger] self.keys()[j], k),
            decreases self.entries@.len() - i,
        {
            assert(self.keys()[i as int] == text::views(self.entries@[i as int].0@));
            i = i + 1;
        }
        if i < self.entries.len() {
            let found = same_row(&self.entries[i].0, key);
            assert(self.keys()[i as int] == text::views(self.entries@[i as int].0@));
            proof {
                if found {
                    assert(self.keys().contains(k));
                } else {
                    lemma_row_total(self.keys()[i as int], k);
                    assert forall|j: int| i <= j < self.keys().len() implies row_before(
                        k,
                        #[trigger] self.keys()[j],
                    ) by {
                        if j > i {
                            assert(row_before(self.keys()[i as int], self.keys()[j]));
                            lemma_row_transitive(k, self.keys()[i as int], self.keys()[j]);
                        }
                    }
                    if self.keys().contains(k) {
                        let j = self.keys().index_of(k);
                        lemma_row_irreflexive(k);
                    }
                }
            }
            (found, i)
        } else {
            proof {
                if self.keys().contains(k) {
                    let j = self.keys().index_of(k);
                    lemma_row_irreflexive(k);
                }
            }
            (false, i)
        }
    }

    pub fn get(&self, key: &Vec<String>) -> (r: Option<&V>)
        requires
            self.wf(),
        ensures
            match r {
                Some(v) => self@.contains_key(text::views(key@)) && self@[text::views(key@)] == *v,
                None => !self@.contains_key(text::views(key@)),
            },
    {
        let (found, i) = self.locate(key);
        if found {
            proof {
                self.lemma_at(i as int);
            }
            Some(&self.entries[i].1)
        } else {
            None
        }
    }

    /// Set the value of `key`.
    pub fn insert(&mut self, key: Vec<String>, value: V)
        requires
            old(self).wf(),
        ensures
            final(self).wf(),
            final(self)@ == old(self)@.insert(text::views(key@), value),
    {
        let (found, i) = self.locate(&key);
        let ghost before = *self;
        let ghost k = text::views(key@);
        if found {
            self.entries.set(i, (key, value));
            proof {
                assert(self.keys() =~= before.keys());
                assert(self.values() =~= before.values().update(i as int, value));
                assert(self.wf());
                before.lemma_keys_distinct();
                lemma_same(*self, before@.insert(k, value), before, i as int, k, value);
            }
        } else {
            self.entries.insert(i, (key, value));
            proof {
                assert(self.keys() =~= before.keys().insert(i as int, k));
                assert(self.values() =~= before.values().insert(i as int, value));
                lemma_wf_insert(before.keys(), i as int, k);
                lemma_inserted(*self, before, i as int, k, value);
            }
        }
    }
}

proof fn lemma_wf_insert(keys: Seq<Seq<Seq<char>>>, at: int, k: Seq<Seq<char>>)
    requires
        0 <= at <= keys.len(),
        forall|i: int, j: int|
            0 <= i < j < keys.len() ==> row_before(#[trigger] keys[i], #[trigger] keys[j]),
        forall|j: int| 0 <= j < at ==> row_before(#[trigger] keys[j], k),
        forall|j: int| at <= j < keys.len() ==> row_before(k, #[trigger] keys[j]),
    ensures
        forall|i: int, j: int|
            0 <= i < j < keys.len() + 1 ==> row_before(
                #[trigger] keys.insert(at, k)[i],
                #[trigger] keys.insert(at, k)[j],
            ),
{
    let all = keys.insert(at, k);
    assert forall|i: int, j: int| 0 <= i < j < all.len() implies row_before(
        #[trigger] all[i],
        #[trigger] all[j],
    ) by {
        let x = if i < at {
            i
        } else {
            i - 1
        };
        let y = if j < at {
            j
        } else {
            j - 1
        };
        if i != at {
            assert(all[i] == keys[x]);
        }
        if j != at {
            assert(all[j] == keys[y]);
        }
    }
}

proof fn lemma_same<V>(
    after: SortedMap<V>,
    goal: Map<Seq<Seq<char>>, V>,
    before: SortedMap<V>,
    at: int,
    k: Seq<Seq<char>>,
    value: V,
)
    requires
        before.keys().no_duplicates(),
        after.keys() == before.keys(),
        after.values() == before.values().update(at, value),
        0 <= at < before.keys().len(),
        before.keys()[at] == k,
        goal == before@.insert(k, value),
    ensures
        after@ == goal,
{
    assert forall|q: Seq<Seq<char>>| #[trigger] goal.contains_key(q) implies after@[q] == goal[q] by {
        let j = before.keys().index_of(q);
        if q == k {
            assert(before.keys().contains(k));
            assert(j == at);
        } else {
            assert(j != at);
        }
    }
    assert(before.keys().contains(k));
    assert(after@ =~= goal);
}

proof fn lemma_inserted<V>(
    after: SortedMap<V>,
    before: SortedMap<V>,
    at: int,
    k: Seq<Seq<char>>,
    value: V,
)
    requires
        after.wf(),
        before.wf(),
        !before.keys().contains(k),
        0 <= at <= before.keys().len(),
        after.keys() == before.keys().insert(at, k),
        after.values() == before.values().insert(at, value),
    ensures
        after@ == before@.insert(k, value),
{
    let goal = before@.insert(k, value);
    assert forall|q: Seq<Seq<char>>| after@.contains_key(q) == goal.contains_key(q) by {
        if q == k {
            assert(after.keys()[at] == k);
        } else if before.keys().contains(q) {
            let j = before.keys().index_of(q);
            let i = if j < at {
                j
            } else {
                j + 1
            };
            assert(after.keys()[i] == q);
        } else if after.keys().contains(q) {
            let i = after.keys().index_of(q);
            let j = if i < at {
                i
            } else {
                i - 1
            };
            assert(before.keys()[j] == q);
        }
    }
    assert forall|q: Seq<Seq<char>>| goal.contains_key(q) implies #[trigger] after@[q] == goal[q] by {
        if q == k {
            after.lemma_at(at);
            assert(after.keys()[at] == k);
        } else {
            let j = before.keys().index_of(q);
            let i = if j < at {
                j
            } else {
                j + 1
            };
            assert(after.keys()[i] == q);
            after.lemma_at(i);
            before.lemma_at(j);
        }
    }
    assert(after@ =~= goal);
}

/// The key that a name is kept under.
pub open spec fn row(name: Seq<char>) -> Seq<Seq<char>> {
    seq![name]
}

pub proof fn lemma_rows_differ()
    ensures
        forall|a: Seq<char>, b: Seq<char>| #[trigger] row(a) == #[trigger] row(b) ==> a == b,
{
    assert forall|a: Seq<char>, b: Seq<char>| #[trigger] row(a) == #[trigger] row(b) implies a
        == b by {
        assert(row(a)[0] == a);
        assert(row(b)[0] == b);
    }
}

/// The key of a map whose keys are single names.
pub fn key_of(name: &str) -> (r: Vec<String>)
    ensures
        text::views(r@) == row(name@),
{
    let mut r: Vec<String> = Vec::new();
    r.push(name.to_owned());
    assert(text::views(r@) =~= row(name@));
    r
}

/// Single names are ordered as texts.
pub proof fn lemma_row_order(a: Seq<char>, b: Seq<char>)
    ensures
        row_before(row(a), row(b)) == text::before(a, b),
{
    if a == b {
        lemma_row_irreflexive(row(a));
        text::lemma_before_irreflexive(a);
    } else {
        assert(row(a)[0] == a && row(b)[0] == b);
    }
}

/// A row comes before those that it begins, and before one that has the later
/// text where the two first differ.
pub proof fn law_order_of_rows(front: Seq<Seq<char>>, a: Seq<Seq<char>>, b: Seq<Seq<char>>)
    requires
        b.len() > 0,
        a.len() == 0 || text::before(a[0], b[0]),
    ensures
        row_before(front + a, front + b),
    decreases front.len(),
{
    let x = front + a;
    let y = front + b;
    if front.len() > 0 {
        law_order_of_rows(front.skip(1), a, b);
        assert(x[0] == y[0]);
        assert(x.skip(1) =~= front.skip(1) + a);
        assert(y.skip(1) =~= front.skip(1) + b);
    } else {
        assert(x =~= a);
        assert(y =~= b);
        if a.len() > 0 {
            text::lemma_before_irreflexive(a[0]);
        }
    }
}

} // verus!
