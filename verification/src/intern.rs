//! An interning table: equal values get one stable identity.

use vstd::prelude::*;

verus! {

/// Values that can be compared field by field at run time.
///
/// The view of a value is what its identity depends on: `same` decides
/// whether two values have the same view.
pub trait StructEq: View + Sized {
    fn same(&self, other: &Self) -> (b: bool)
        ensures
            b == (self@ == other@),
    ;
}

/// A table that owns every interned value; the identity of a value is its
/// index in the table.
pub struct Internment<T> {
    items: Vec<T>,
}

impl<T: StructEq> View for Internment<T> {
    type V = Seq<T::V>;

    closed spec fn view(&self) -> Seq<T::V> {
        Seq::new(self.items@.len(), |i: int| self.items@[i]@)
    }
}

/// What interning `t` does to a table, and the identity it yields.
pub open spec fn interned<A>(table: Seq<A>, t: A) -> (Seq<A>, int) {
    if table.contains(t) {
        (table, table.index_of(t))
    } else {
        (table.push(t), table.len() as int)
    }
}

/// Interning keeps a table free of duplicates, keeps the identities given
/// out before, and yields an identity under which the value stands.
pub proof fn lemma_interned<A>(table: Seq<A>, t: A)
    requires
        table.no_duplicates(),
    ensures
        interned(table, t).0.no_duplicates(),
        0 <= interned(table, t).1 < interned(table, t).0.len(),
        interned(table, t).0[interned(table, t).1] == t,
        interned(table, t).0.len() >= table.len(),
        forall|i: int| 0 <= i < table.len() ==> interned(table, t).0[i] == table[i],
{
    if table.contains(t) {
        let i = choose|i: int| 0 <= i < table.len() && table[i] == t;
        assert(0 <= table.index_of(t) < table.len() && table[table.index_of(t)] == t);
    }
}

/// Interning the same value twice yields the same identity, and the second
/// time leaves the table as it is.
pub proof fn lemma_intern_twice<A>(table: Seq<A>, t: A)
    requires
        table.no_duplicates(),
    ensures
        interned(interned(table, t).0, t) == interned(table, t),
{
    lemma_interned(table, t);
    let (once, id) = interned(table, t);
    assert(once.contains(t));
    let again = once.index_of(t);
    assert(0 <= again < once.len() && once[again] == t);
}

/// Interning two different values yields two different identities, under
/// each of which its own value stands afterwards.
pub proof fn lemma_intern_distinct<A>(table: Seq<A>, a: A, b: A)
    requires
        table.no_duplicates(),
        a != b,
    ensures
        interned(table, a).1 != interned(interned(table, a).0, b).1,
        interned(interned(table, a).0, b).0[interned(table, a).1] == a,
        interned(interned(table, a).0, b).0[interned(interned(table, a).0, b).1] == b,
{
    lemma_interned(table, a);
    lemma_interned(interned(table, a).0, b);
}

impl<T: StructEq> Default for Internment<T> {
    /// The empty table.
    fn default() -> (table: Self)
        ensures
            table@ == Seq::<T::V>::empty(),
            table.wf(),
    {
        Internment::new()
    }
}

impl<T: StructEq> Internment<T> {
    /// No two entries of the table are equal.
    pub open spec fn wf(&self) -> bool {
        self@.no_duplicates()
    }

    /// The empty table.
    pub fn new() -> (table: Self)
        ensures
            table@ == Seq::<T::V>::empty(),
            table.wf(),
    {
        let table = Internment { items: Vec::new() };
        assert(table@ =~= Seq::<T::V>::empty());
        table
    }

    /// The number of values in the table.
    pub fn len(&self) -> (n: usize)
        ensures
            n == self@.len(),
    {
        self.items.len()
    }

    /// The value behind an identity.
    pub fn get(&self, id: usize) -> (t: &T)
        requires
            id < self@.len(),
        ensures
            t@ == self@[id as int],
    {
        &self.items[id]
    }

    /// The identity of `t` where the table holds an equal value.
    pub fn find(&self, t: &T) -> (found: Option<usize>)
        ensures
            match found {
                Some(id) => id < self@.len() && self@[id as int] == t@ && forall|j: int|
                    0 <= j < id ==> self@[j] != t@,
                None => !self@.contains(t@),
            },
    {
        let mut i: usize = 0;
        while i < self.items.len()
            invariant
                i <= self.items@.len(),
                self@.len() == self.items@.len(),
                forall|j: int| 0 <= j < i ==> self@[j] != t@,
            decreases self.items@.len() - i,
        {
            if self.items[i].same(t) {
                return Some(i);
            }
            i += 1;
        }
        None
    }

    /// Returns the identity of the value equal to `t`, storing `t` under a
    /// fresh identity when the table holds no such value.  Identities given
    /// out earlier stay valid.
    pub fn intern(&mut self, t: T) -> (id: usize)
        requires
            old(self).wf(),
        ensures
            final(self).wf(),
            (final(self)@, id as int) == interned(old(self)@, t@),
            id < final(self)@.len(),
            final(self)@[id as int] == t@,
            final(self)@.len() >= old(self)@.len(),
            forall|j: int| 0 <= j < old(self)@.len() ==> final(self)@[j] == old(self)@[j],
    {
        match self.find(&t) {
            Some(id) => {
                proof {
                    let k = self@.index_of(t@);
                    assert(self@[k] == t@ && 0 <= k < self@.len());
                }
                id
            },
            None => {
                let id = self.items.len();
                let ghost before = self@;
                self.items.push(t);
                assert(self@ =~= before.push(t@));
                id
            },
        }
    }
}

} // verus!
