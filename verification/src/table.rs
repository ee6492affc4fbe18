//! The translation table: language code to translation string, keys unique,
//! in order of first appearance. Inserting an existing key replaces its
//! value in place, as a map insert would, while keeping the pinned order
//! that makes the emitted output reproducible.

use vstd::prelude::*;

verus! {

/// The view of a table entry sequence: each entry as a pair of character
/// sequences, key then value.
pub open spec fn entries_view(s: Seq<(String, String)>) -> Seq<(Seq<char>, Seq<char>)> {
    Seq::new(s.len(), |i: int| (s[i].0@, s[i].1@))
}

/// Whether `t` holds an entry with key `k`.
pub open spec fn table_has_key(t: Seq<(Seq<char>, Seq<char>)>, k: Seq<char>) -> bool {
    exists|i: int| 0 <= i < t.len() && t[i].0 == k
}

/// `t` with `(k, v)` inserted: the value of the first entry keyed `k` is
/// replaced in place, or the entry is appended when `k` is absent.
pub open spec fn table_upsert(
    t: Seq<(Seq<char>, Seq<char>)>,
    k: Seq<char>,
    v: Seq<char>,
) -> Seq<(Seq<char>, Seq<char>)>
    decreases t.len(),
{
    if t.len() == 0 {
        seq![(k, v)]
    } else if t[0].0 == k {
        seq![(k, v)] + t.drop_first()
    } else {
        seq![t[0]] + table_upsert(t.drop_first(), k, v)
    }
}

/// No two entries of `t` share a key.
pub open spec fn table_keys_unique(t: Seq<(Seq<char>, Seq<char>)>) -> bool {
    forall|i: int, j: int| 0 <= i < j < t.len() ==> t[i].0 != t[j].0
}

/// An upsert with a key found first at `j` replaces the entry at `j`.
pub proof fn lemma_upsert_found(t: Seq<(Seq<char>, Seq<char>)>, k: Seq<char>, v: Seq<char>, j: int)
    requires
        0 <= j < t.len(),
        t[j].0 == k,
        forall|i: int| 0 <= i < j ==> t[i].0 != k,
    ensures
        table_upsert(t, k, v) == t.update(j, (k, v)),
    decreases t.len(),
{
    if j == 0 {
        assert(table_upsert(t, k, v) =~= t.update(0, (k, v)));
    } else {
        lemma_upsert_found(t.drop_first(), k, v, j - 1);
        assert(t.drop_first().update(j - 1, (k, v)) =~= t.update(j, (k, v)).drop_first());
        assert(table_upsert(t, k, v) =~= t.update(j, (k, v)));
    }
}

/// An upsert with an absent key appends the entry.
pub proof fn lemma_upsert_absent(t: Seq<(Seq<char>, Seq<char>)>, k: Seq<char>, v: Seq<char>)
    requires
        !table_has_key(t, k),
    ensures
        table_upsert(t, k, v) == t.push((k, v)),
    decreases t.len(),
{
    if t.len() > 0 {
        assert(t[0].0 != k);
        assert(!table_has_key(t.drop_first(), k)) by {
            assert forall|i: int| 0 <= i < t.drop_first().len() implies t.drop_first()[i].0
                != k by {
                assert(t.drop_first()[i] == t[i + 1]);
            }
        }
        lemma_upsert_absent(t.drop_first(), k, v);
        assert(table_upsert(t, k, v) =~= t.push((k, v)));
    } else {
        assert(table_upsert(t, k, v) =~= t.push((k, v)));
    }
}

/// A translation table: language code to translation string. The entry
/// order is the order of first insertion, so that one run always emits the
/// same output for the same input.
pub struct Translations {
    pub entries: Vec<(String, String)>,
}

impl View for Translations {
    type V = Seq<(Seq<char>, Seq<char>)>;

    open spec fn view(&self) -> Seq<(Seq<char>, Seq<char>)> {
        entries_view(self.entries@)
    }
}

impl Translations {
    /// The table invariant: no two entries share a key.
    pub open spec fn wf(&self) -> bool {
        table_keys_unique(self@)
    }

    /// An empty table.
    pub fn new() -> (r: Translations)
        ensures
            r@ == Seq::<(Seq<char>, Seq<char>)>::empty(),
            r.wf(),
    {
        let r = Translations { entries: Vec::new() };
        proof {
            assert(r@ =~= Seq::<(Seq<char>, Seq<char>)>::empty());
        }
        r
    }

    /// The number of entries.
    pub fn len(&self) -> (n: usize)
        ensures
            n == self@.len(),
    {
        self.entries.len()
    }

    /// Inserts `(k, v)`: replaces the value of an existing entry keyed `k`
    /// in place, or appends a new entry.
    pub fn insert(&mut self, k: String, v: String)
        requires
            old(self).wf(),
        ensures
            final(self)@ == table_upsert(old(self)@, k@, v@),
            final(self).wf(),
    {
        let ghost t0 = old(self)@;
        let n = self.entries.len();
        let mut j: usize = 0;
        while j < n
            invariant
                t0 == old(self)@,
                n == self.entries@.len(),
                j <= n,
                self@ == t0,
                table_keys_unique(t0),
                forall|i: int| 0 <= i < j ==> t0[i].0 != k@,
        decreases n - j,
        {
            if self.entries[j].0 == k {
                let _ = self.entries.remove(j);
                self.entries.insert(j, (k, v));
                proof {
                    lemma_upsert_found(t0, k@, v@, j as int);
                    assert(self@ =~= t0.update(j as int, (k@, v@)));
                    assert forall|a: int, b: int| 0 <= a < b < self@.len() implies self@[a].0
                        != self@[b].0 by {
                        assert(t0[a].0 != t0[b].0);
                    }
                }
                return ;
            }
            j = j + 1;
        }
        self.entries.push((k, v));
        proof {
            assert(!table_has_key(t0, k@));
            lemma_upsert_absent(t0, k@, v@);
            assert(self@ =~= t0.push((k@, v@)));
            assert forall|a: int, b: int| 0 <= a < b < self@.len() implies self@[a].0
                != self@[b].0 by {
                if b < t0.len() {
                    assert(t0[a].0 != t0[b].0);
                } else {
                    assert(t0[a].0 != k@);
                }
            }
        }
    }

    /// The value of the first entry, the one the content hash is computed
    /// from.
    pub fn first_value(&self) -> (r: &String)
        requires
            self@.len() > 0,
        ensures
            r@ == self@[0].1,
    {
        &self.entries[0].1
    }

    /// The entry at `i`, key then value.
    pub fn entry_at(&self, i: usize) -> (r: (&String, &String))
        requires
            i < self@.len(),
        ensures
            r.0@ == self@[i as int].0,
            r.1@ == self@[i as int].1,
    {
        (&self.entries[i].0, &self.entries[i].1)
    }
}

} // verus!
