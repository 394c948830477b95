//! A table from names to values, kept in the order of the names.

use vstd::prelude::*;

use crate::text;

verus! {

/// `a` stands before `b` in the order of texts: character by character, a prefix first.
pub open spec fn before(a: Seq<char>, b: Seq<char>) -> bool
    decreases a.len(),
{
    if b.len() == 0 {
        false
    } else if a.len() == 0 {
        true
    } else if a[0] != b[0] {
        (a[0] as int) < (b[0] as int)
    } else {
        before(a.skip(1), b.skip(1))
    }
}

/// Of two texts one stands before the other, or they are the same.
pub proof fn lemma_total(a: Seq<char>, b: Seq<char>)
    ensures
        before(a, b) || before(b, a) || a == b,
        !(before(a, b) && before(b, a)),
        !before(a, a),
    decreases a.len(),
{
    if a.len() > 0 {
        lemma_total(a.skip(1), a.skip(1));
    }
    if a.len() > 0 && b.len() > 0 && a[0] == b[0] {
        lemma_total(a.skip(1), b.skip(1));
        if a.skip(1) == b.skip(1) {
            assert(a =~= seq![a[0]] + a.skip(1));
            assert(b =~= seq![b[0]] + b.skip(1));
        }
    } else if a.len() == 0 && b.len() == 0 {
        assert(a =~= b);
    }
}

/// The order is transitive.
pub proof fn lemma_transitive(a: Seq<char>, b: Seq<char>, c: Seq<char>)
    requires
        before(a, b),
        before(b, c),
    ensures
        before(a, c),
    decreases a.len(),
{
    if a.len() > 0 && a[0] == b[0] && b[0] == c[0] {
        lemma_transitive(a.skip(1), b.skip(1), c.skip(1));
    }
}

/// Whether `a` stands before `b`.
pub fn precedes(a: &[char], b: &[char]) -> (r: bool)
    ensures
        r == before(a@, b@),
{
    let mut i: usize = 0;
    assert(a@.skip(0) =~= a@);
    assert(b@.skip(0) =~= b@);
    while i < a.len() && i < b.len()
        invariant
            i <= a.len(),
            i <= b.len(),
            before(a@, b@) == before(a@.skip(i as int), b@.skip(i as int)),
        decreases a.len() - i,
    {
        assert(a@.skip(i as int)[0] == a[i as int]);
        assert(b@.skip(i as int)[0] == b[i as int]);
        if a[i] != b[i] {
            return text::code(a[i]) < text::code(b[i]);
        }
        assert(a@.skip(i as int).skip(1) =~= a@.skip(i + 1));
        assert(b@.skip(i as int).skip(1) =~= b@.skip(i + 1));
        i = i + 1;
    }
    i < b.len()
}

/// A table from names to values. Its names are in ascending order, each once.
pub struct Table<V> {
    names: Vec<String>,
    values: Vec<V>,
}

impl<V> Table<V> {
    /// The names, in ascending order.
    pub closed spec fn names(&self) -> Seq<Seq<char>> {
        text::strs(self.names@)
    }

    /// What the names are mapped to, in the order of the names.
    pub closed spec fn values(&self) -> Seq<V> {
        self.values@
    }

    /// The names are in strictly ascending order, and each has a value.
    pub open spec fn wf(&self) -> bool {
        &&& self.names().len() == self.values().len()
        &&& forall|i: int, j: int|
            0 <= i < j < self.names().len() ==> before(
                #[trigger] self.names()[i],
                #[trigger] self.names()[j],
            )
    }

    /// The table holds what `m` holds.
    pub open spec fn holds(&self, m: Map<Seq<char>, V>) -> bool {
        &&& forall|i: int|
            0 <= i < self.names().len() ==> m.contains_key(#[trigger] self.names()[i])
                && m[self.names()[i]] == self.values()[i]
        &&& forall|k: Seq<char>| #[trigger]
            m.contains_key(k) ==> exists|i: int| 0 <= i < self.names().len() && self.names()[i] == k
    }

    /// An empty table.
    pub fn new() -> (r: Self)
        ensures
            r.wf(),
            r.holds(Map::empty()),
            r.names().len() == 0,
    {
        let r = Table { names: Vec::new(), values: Vec::new() };
        assert(r.names() =~= Seq::empty());
        r
    }

    /// How many names the table has.
    pub fn len(&self) -> (r: usize)
        ensures
            r == self.names().len(),
    {
        self.names.len()
    }

    /// The name at a place.
    pub fn name(&self, i: usize) -> (r: &str)
        requires
            i < self.names().len(),
        ensures
            r@ == self.names()[i as int],
    {
        self.names[i].as_str()
    }

    /// The value at a place.
    pub fn value(&self, i: usize) -> (r: &V)
        requires
            self.wf(),
            i < self.names().len(),
        ensures
            *r == self.values()[i as int],
    {
        &self.values[i]
    }

    /// The place of `key`: the first whose name does not stand before it.
    fn place(&self, key: &[char]) -> (r: usize)
        requires
            self.wf(),
        ensures
            r <= self.names().len(),
            forall|i: int| 0 <= i < r ==> before(#[trigger] self.names()[i], key@),
            r < self.names().len() ==> !before(self.names()[r as int], key@),
    {
        let mut i: usize = 0;
        while i < self.names.len()
            invariant
                i <= self.names.len(),
                self.names().len() == self.names.len(),
                forall|k: int| 0 <= k < i ==> before(#[trigger] self.names()[k], key@),
            decreases self.names.len() - i,
        {
            let n = text::chars_of(self.names[i].as_str());
            assert(n@ == self.names()[i as int]);
            if !precedes(n.as_slice(), key) {
                return i;
            }
            i = i + 1;
        }
        i
    }

    /// The value of `key`.
    pub fn get(&self, key: &[char]) -> (r: Option<&V>)
        requires
            self.wf(),
        ensures
            match r {
                Some(v) => exists|i: int|
                    0 <= i < self.names().len() && self.names()[i] == key@ && *v
                        == self.values()[i],
                None => forall|i: int|
                    0 <= i < self.names().len() ==> #[trigger] self.names()[i] != key@,
            },
    {
        let i: usize = self.place(key);
        if i < self.names.len() {
            let n = text::chars_of(self.names[i].as_str());
            assert(n@ == self.names()[i as int]);
            if text::same(n.as_slice(), key) {
                assert(self.names()[i as int] == key@ && self.values()[i as int]
                    == self.values[i as int]);
                return Some(&self.values[i]);
            }
            proof {
                lemma_total(n@, key@);
            }
        }
        assert forall|k: int| 0 <= k < self.names().len() implies #[trigger] self.names()[k]
            != key@ by {
            lemma_total(key@, key@);
            if k > i {
                if self.names()[k] == key@ {
                    lemma_transitive(key@, self.names()[i as int], self.names()[k]);
                }
            }
        }
        None
    }

    /// Maps `key` to `v`, in place of what it was mapped to.
    pub fn insert(&mut self, key: String, v: V)
        requires
            old(self).wf(),
        ensures
            final(self).wf(),
            forall|m: Map<Seq<char>, V>|
                old(self).holds(m) ==> #[trigger] final(self).holds(m.insert(key@, v)),
    {
        let ghost before_names = self.names();
        let ghost before_values = self.values();
        let c = text::chars_of(key.as_str());
        let i: usize = self.place(c.as_slice());
        let ghost k = key@;
        if i < self.names.len() {
            let n = text::chars_of(self.names[i].as_str());
            assert(n@ == self.names()[i as int]);
            if text::same(n.as_slice(), c.as_slice()) {
                self.values.set(i, v);
                proof {
                    assert(self.names() == before_names);
                    assert(self.values() == before_values.update(i as int, v));
                    assert forall|m: Map<Seq<char>, V>| old(self).holds(m) implies #[trigger] self.holds(
                        m.insert(k, v),
                    ) by {
                        assert forall|j: int| 0 <= j < self.names().len() implies m.insert(
                            k,
                            v,
                        ).contains_key(#[trigger] self.names()[j]) && m.insert(
                            k,
                            v,
                        )[self.names()[j]] == self.values()[j] by {
                            assert(before_names[j] == self.names()[j]);
                            if j != i {
                                lemma_total(before_names[j], before_names[i as int]);
                            }
                        }
                        assert forall|x: Seq<char>| #[trigger]
                            m.insert(k, v).contains_key(x) implies exists|j: int|
                            0 <= j < self.names().len() && self.names()[j] == x by {
                            if x == k {
                                assert(self.names()[i as int] == x);
                            } else {
                                assert(m.contains_key(x));
                            }
                        }
                    }
                }
                return;
            }
            proof {
                lemma_total(n@, k);
            }
        }
        self.names.insert(i, key);
        self.values.insert(i, v);
        proof {
            assert(self.names() =~= before_names.insert(i as int, k));
            assert(self.values() =~= before_values.insert(i as int, v));
            assert forall|a: int, b: int| 0 <= a < b < self.names().len() implies before(
                #[trigger] self.names()[a],
                #[trigger] self.names()[b],
            ) by {
                let pa = if a < i { a } else { a - 1 };
                let pb = if b < i { b } else { b - 1 };
                if a != i {
                    assert(self.names()[a] == before_names[pa]);
                }
                if b != i {
                    assert(self.names()[b] == before_names[pb]);
                }
                if a == i && b != i {
                    if pb > i {
                        lemma_transitive(k, before_names[i as int], before_names[pb]);
                    }
                } else if b == i {
                } else {
                    assert(before(before_names[pa], before_names[pb]));
                }
            }
            assert forall|m: Map<Seq<char>, V>| old(self).holds(m) implies #[trigger] self.holds(
                m.insert(k, v),
            ) by {
                assert forall|j: int| 0 <= j < self.names().len() implies m.insert(
                    k,
                    v,
                ).contains_key(#[trigger] self.names()[j]) && m.insert(k, v)[self.names()[j]]
                    == self.values()[j] by {
                    let p = if j < i { j } else { j - 1 };
                    if j != i {
                        assert(self.names()[j] == before_names[p]);
                        assert(self.values()[j] == before_values[p]);
                        lemma_total(k, k);
                        if j < i {
                            assert(before(before_names[p], k));
                        } else if before_names[p] == k && p > i {
                            lemma_transitive(k, before_names[i as int], before_names[p]);
                        }
                    }
                }
                assert forall|x: Seq<char>| #[trigger]
                    m.insert(k, v).contains_key(x) implies exists|j: int|
                    0 <= j < self.names().len() && self.names()[j] == x by {
                    if x == k {
                        assert(self.names()[i as int] == x);
                    } else {
                        assert(m.contains_key(x));
                        let p = choose|p: int|
                            0 <= p < before_names.len() && before_names[p] == x;
                        let j = if p < i { p } else { p + 1 };
                        assert(self.names()[j] == x);
                    }
                }
            }
        }
    }
}

} // verus!
