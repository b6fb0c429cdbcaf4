//! An ordered map from identities to objects, kept as a vector that is
//! sorted by identity.

use crate::byte_order::Rank;
use crate::object_id::{ObjectId, ObjectIdView};
use vstd::prelude::*;

verus! {

/// The identities of `l` go strictly upwards, so none occurs twice.
pub open spec fn increasing<K>(l: Seq<(ObjectIdView, K)>) -> bool {
    forall|i: int, j: int|
        0 <= i < j < l.len() ==> (#[trigger] l[i]).0.precedes((#[trigger] l[j]).0)
}

/// Some pair of `l` has the identity `id`.
pub open spec fn holds<K>(l: Seq<(ObjectIdView, K)>, id: ObjectIdView) -> bool {
    exists|i: int| 0 <= i < l.len() && (#[trigger] l[i]).0 == id
}

/// A place in `l` at which `id` stands, if it stands anywhere.
pub open spec fn position<K>(l: Seq<(ObjectIdView, K)>, id: ObjectIdView) -> int {
    choose|i: int| 0 <= i < l.len() && (#[trigger] l[i]).0 == id
}

/// The map that a listing stands for.
pub open spec fn as_map<K>(l: Seq<(ObjectIdView, K)>) -> Map<ObjectIdView, K> {
    Map::new(|id: ObjectIdView| holds(l, id), |id: ObjectIdView| l[position(l, id)].1)
}

/// Everything before `pos` in `l` comes before `id`, and `id` comes before
/// everything from `pos` on: `pos` is where `id` would have to be inserted.
pub open spec fn splits_at<K>(l: Seq<(ObjectIdView, K)>, id: ObjectIdView, pos: int) -> bool {
    &&& 0 <= pos <= l.len()
    &&& forall|j: int| 0 <= j < pos ==> (#[trigger] l[j]).0.precedes(id)
    &&& forall|j: int| pos <= j < l.len() ==> id.precedes((#[trigger] l[j]).0)
}

/// In an increasing listing the pair at place `i` is the one that the map
/// gives for its identity.
pub proof fn lemma_as_map_at<K>(l: Seq<(ObjectIdView, K)>, i: int)
    requires
        increasing(l),
        0 <= i < l.len(),
    ensures
        holds(l, l[i].0),
        position(l, l[i].0) == i,
        as_map(l).contains_key(l[i].0),
        as_map(l)[l[i].0] == l[i].1,
{
    let p = position(l, l[i].0);
    l[i].0.lemma_irreflexive();
    if p < i {
        assert(l[p].0.precedes(l[i].0));
    } else if i < p {
        assert(l[i].0.precedes(l[p].0));
    }
}

/// An identity for which a listing has an insertion place is not in it.
pub proof fn lemma_split_absent<K>(l: Seq<(ObjectIdView, K)>, id: ObjectIdView, pos: int)
    requires
        splits_at(l, id, pos),
    ensures
        !holds(l, id),
        !as_map(l).contains_key(id),
{
    id.lemma_irreflexive();
    assert forall|i: int| 0 <= i < l.len() implies (#[trigger] l[i]).0 != id by {
        if i < pos {
            assert(l[i].0.precedes(id));
        } else {
            assert(id.precedes(l[i].0));
        }
    }
}

/// Inserting a new identity at its insertion place keeps the listing
/// increasing and adds the pair to its map.
pub proof fn lemma_insert<K>(l: Seq<(ObjectIdView, K)>, id: ObjectIdView, pos: int, value: K)
    requires
        increasing(l),
        splits_at(l, id, pos),
    ensures
        increasing(l.insert(pos, (id, value))),
        as_map(l.insert(pos, (id, value))) == as_map(l).insert(id, value),
{
    let m = l.insert(pos, (id, value));
    assert(m.len() == l.len() + 1);
    assert(m[pos] == (id, value));
    assert forall|i: int| 0 <= i < pos implies #[trigger] m[i] == l[i] by {}
    assert forall|i: int| pos < i < m.len() implies #[trigger] m[i] == l[i - 1] by {}
    assert forall|i: int, j: int| 0 <= i < j < m.len() implies (#[trigger] m[i]).0.precedes(
        (#[trigger] m[j]).0,
    ) by {
        if j < pos {
            assert(l[i].0.precedes(l[j].0));
        } else if j == pos {
            assert(l[i].0.precedes(id));
        } else if i < pos {
            assert(l[i].0.precedes(l[j - 1].0));
        } else if i == pos {
            assert(id.precedes(l[j - 1].0));
        } else {
            assert(l[i - 1].0.precedes(l[j - 1].0));
        }
    }
    lemma_as_map_at(m, pos);
    assert forall|x: ObjectIdView| as_map(m).contains_key(x) <==> as_map(l).insert(
        id,
        value,
    ).contains_key(x) by {
        if holds(m, x) {
            let p = position(m, x);
            if p < pos {
                assert(l[p].0 == x);
            } else if p > pos {
                assert(l[p - 1].0 == x);
            }
        }
        if holds(l, x) {
            let q = position(l, x);
            if q < pos {
                assert(m[q].0 == x);
            } else {
                assert(m[q + 1].0 == x);
            }
        }
    }
    assert forall|x: ObjectIdView| as_map(m).contains_key(x) implies as_map(m)[x] == as_map(
        l,
    ).insert(id, value)[x] by {
        let p = position(m, x);
        if p < pos {
            lemma_as_map_at(l, p);
        } else if p > pos {
            lemma_as_map_at(l, p - 1);
        }
    }
    assert(as_map(m) =~= as_map(l).insert(id, value));
}

/// Replacing the object at the place where `id` stands keeps the listing
/// increasing and overwrites `id` in its map.
pub proof fn lemma_update<K>(l: Seq<(ObjectIdView, K)>, i: int, value: K)
    requires
        increasing(l),
        0 <= i < l.len(),
    ensures
        increasing(l.update(i, (l[i].0, value))),
        as_map(l.update(i, (l[i].0, value))) == as_map(l).insert(l[i].0, value),
{
    let id = l[i].0;
    let m = l.update(i, (id, value));
    assert forall|a: int, b: int| 0 <= a < b < m.len() implies (#[trigger] m[a]).0.precedes(
        (#[trigger] m[b]).0,
    ) by {
        assert(l[a].0.precedes(l[b].0));
    }
    assert forall|x: ObjectIdView| as_map(m).contains_key(x) <==> as_map(l).insert(
        id,
        value,
    ).contains_key(x) by {
        if holds(m, x) {
            let p = position(m, x);
            assert(l[p].0 == x);
        }
        if holds(l, x) {
            let q = position(l, x);
            assert(m[q].0 == x);
        }
        assert(m[i].0 == id);
    }
    assert forall|x: ObjectIdView| as_map(m).contains_key(x) implies as_map(m)[x] == as_map(
        l,
    ).insert(id, value)[x] by {
        let p = position(m, x);
        lemma_as_map_at(m, p);
        lemma_as_map_at(l, p);
    }
    assert(as_map(m) =~= as_map(l).insert(id, value));
}

/// Taking out the pair at the place where `id` stands keeps the listing
/// increasing and removes `id` from its map.
pub proof fn lemma_remove<K>(l: Seq<(ObjectIdView, K)>, i: int)
    requires
        increasing(l),
        0 <= i < l.len(),
    ensures
        increasing(l.remove(i)),
        as_map(l.remove(i)) == as_map(l).remove(l[i].0),
{
    let id = l[i].0;
    let m = l.remove(i);
    assert(m.len() == l.len() - 1);
    assert forall|a: int| 0 <= a < i implies #[trigger] m[a] == l[a] by {}
    assert forall|a: int| i <= a < m.len() implies #[trigger] m[a] == l[a + 1] by {}
    assert forall|a: int, b: int| 0 <= a < b < m.len() implies (#[trigger] m[a]).0.precedes(
        (#[trigger] m[b]).0,
    ) by {
        let from_a = if a < i { a } else { a + 1 };
        let from_b = if b < i { b } else { b + 1 };
        assert(l[from_a].0.precedes(l[from_b].0));
    }
    lemma_as_map_at(l, i);
    assert forall|x: ObjectIdView| as_map(m).contains_key(x) <==> as_map(l).remove(
        id,
    ).contains_key(x) by {
        if holds(m, x) {
            let p = position(m, x);
            let from = if p < i { p } else { p + 1 };
            assert(l[from].0 == x);
            lemma_as_map_at(l, from);
        }
        if holds(l, x) && x != id {
            let q = position(l, x);
            if q < i {
                assert(m[q].0 == x);
            } else {
                assert(m[q - 1].0 == x);
            }
        }
    }
    assert forall|x: ObjectIdView| as_map(m).contains_key(x) implies as_map(m)[x] == as_map(
        l,
    ).remove(id)[x] by {
        let p = position(m, x);
        let from = if p < i { p } else { p + 1 };
        lemma_as_map_at(m, p);
        lemma_as_map_at(l, from);
    }
    assert(as_map(m) =~= as_map(l).remove(id));
}

/// An increasing listing has as many pairs as its map has identities.
pub proof fn lemma_listing_len<K>(l: Seq<(ObjectIdView, K)>)
    requires
        increasing(l),
    ensures
        as_map(l).dom().finite(),
        as_map(l).len() == l.len(),
    decreases l.len(),
{
    if l.len() == 0 {
        assert(as_map(l).dom() =~= Set::<ObjectIdView>::empty());
    } else {
        let n = l.len() - 1;
        lemma_remove(l, n);
        lemma_as_map_at(l, n);
        lemma_listing_len(l.remove(n));
        assert(as_map(l).dom() =~= as_map(l.remove(n)).dom().insert(l[n].0));
    }
}

/// The listing that a vector of entries stands for.
pub open spec fn listing_of<K>(entries: Seq<(ObjectId, K)>) -> Seq<(ObjectIdView, K)> {
    Seq::new(entries.len(), |i: int| (entries[i].0@, entries[i].1))
}

/// Where `find` found an identity, or where it would have to go.
enum Slot {
    /// The identity stands at this place.
    At(usize),
    /// The identity is absent and this is its insertion place.
    Gap(usize),
}

/// The cache: each object the mirror holds, under its identity.
pub struct Cache<K> {
    entries: Vec<(ObjectId, K)>,
}

impl<K> View for Cache<K> {
    type V = Map<ObjectIdView, K>;

    open spec fn view(&self) -> Map<ObjectIdView, K> {
        as_map(self.listing())
    }
}

impl<K> Cache<K> {
    /// The pairs of the cache in the order in which it keeps them.
    pub closed spec fn listing(&self) -> Seq<(ObjectIdView, K)> {
        listing_of(self.entries@)
    }

    /// The listing is sorted by identity. Every cache that this module hands
    /// out is well formed.
    pub open spec fn wf(&self) -> bool {
        increasing(self.listing())
    }

    #[verifier::type_invariant]
    spec fn sorted(self) -> bool {
        self.wf()
    }

    /// An empty cache.
    pub fn new() -> (c: Cache<K>)
        ensures
            c.wf(),
            c.listing() == Seq::<(ObjectIdView, K)>::empty(),
            c@ == Map::<ObjectIdView, K>::empty(),
    {
        let c = Cache { entries: Vec::new() };
        proof {
            assert(c.listing() =~= Seq::<(ObjectIdView, K)>::empty());
            assert(c@ =~= Map::<ObjectIdView, K>::empty());
        }
        c
    }

    /// The number of objects held.
    pub fn len(&self) -> (n: usize)
        ensures
            n == self@.len(),
    {
        proof {
            use_type_invariant(self);
            lemma_listing_len(self.listing());
        }
        self.entries.len()
    }

    /// Looks `id` up by binary search.
    fn find(&self, id: &ObjectId) -> (slot: Slot)
        ensures
            self.wf(),
            match slot {
                Slot::At(i) => i < self.listing().len() && self.listing()[i as int].0 == id@,
                Slot::Gap(i) => splits_at(self.listing(), id@, i as int),
            },
    {
        proof {
            use_type_invariant(self);
        }
        let ghost l = self.listing();
        let mut lo: usize = 0;
        let mut hi: usize = self.entries.len();
        while lo < hi
            invariant
                l == self.listing(),
                increasing(l),
                0 <= lo <= hi <= l.len(),
                l.len() == self.entries@.len(),
                forall|j: int| 0 <= j < lo ==> (#[trigger] l[j]).0.precedes(id@),
                forall|j: int| hi <= j < l.len() ==> id@.precedes((#[trigger] l[j]).0),
            decreases hi - lo,
        {
            let mid: usize = lo + (hi - lo) / 2;
            let at = &self.entries[mid].0;
            assert(l[mid as int].0 == at@);
            match at.rank(id) {
                Rank::Same => {
                    return Slot::At(mid);
                },
                Rank::Before => {
                    proof {
                        assert forall|j: int| 0 <= j < mid + 1 implies (#[trigger] l[j]).0.precedes(
                            id@,
                        ) by {
                            if j < mid {
                                assert(l[j].0.precedes(l[mid as int].0));
                                l[j].0.lemma_transitive(at@, id@);
                            }
                        }
                    }
                    lo = mid + 1;
                },
                Rank::After => {
                    proof {
                        at@.lemma_total(id@);
                        assert forall|j: int| mid <= j < l.len() implies id@.precedes(
                            (#[trigger] l[j]).0,
                        ) by {
                            if mid < j {
                                assert(l[mid as int].0.precedes(l[j].0));
                                id@.lemma_transitive(at@, l[j].0);
                            }
                        }
                    }
                    hi = mid;
                },
            }
        }
        Slot::Gap(lo)
    }

    /// The object held under `id`, if there is one.
    pub fn get(&self, id: &ObjectId) -> (r: Option<&K>)
        ensures
            r == if self@.contains_key(id@) {
                Some(&self@[id@])
            } else {
                None
            },
    {
        match self.find(id) {
            Slot::At(i) => {
                proof {
                    lemma_as_map_at(self.listing(), i as int);
                }
                Some(&self.entries[i].1)
            },
            Slot::Gap(i) => {
                proof {
                    lemma_split_absent(self.listing(), id@, i as int);
                }
                None
            },
        }
    }

    /// Whether an object is held under `id`.
    pub fn contains_key(&self, id: &ObjectId) -> (r: bool)
        ensures
            r == self@.contains_key(id@),
    {
        self.get(id).is_some()
    }

    /// Puts `value` under `id`, in place of what was there.
    pub fn insert(&mut self, id: ObjectId, value: K)
        ensures
            final(self).wf(),
            final(self)@ == old(self)@.insert(id@, value),
    {
        let slot = self.find(&id);
        let ghost l = self.listing();
        let mut entries: Vec<(ObjectId, K)> = Vec::new();
        std::mem::swap(&mut entries, &mut self.entries);
        match slot {
            Slot::At(i) => {
                proof {
                    lemma_update(l, i as int, value);
                    assert(listing_of(entries@.update(i as int, (id, value))) =~= l.update(
                        i as int,
                        (l[i as int].0, value),
                    ));
                }
                entries.set(i, (id, value));
            },
            Slot::Gap(i) => {
                proof {
                    lemma_insert(l, id@, i as int, value);
                    assert(listing_of(entries@.insert(i as int, (id, value))) =~= l.insert(
                        i as int,
                        (id@, value),
                    ));
                }
                entries.insert(i, (id, value));
            },
        }
        self.entries = entries;
    }

    /// Puts `value` under `id` unless something is there already.
    pub fn insert_if_absent(&mut self, id: ObjectId, value: K)
        ensures
            final(self).wf(),
            final(self)@ == if old(self)@.contains_key(id@) {
                old(self)@
            } else {
                old(self)@.insert(id@, value)
            },
    {
        let slot = self.find(&id);
        let ghost l = self.listing();
        match slot {
            Slot::At(i) => {
                proof {
                    lemma_as_map_at(l, i as int);
                }
            },
            Slot::Gap(i) => {
                let mut entries: Vec<(ObjectId, K)> = Vec::new();
                std::mem::swap(&mut entries, &mut self.entries);
                proof {
                    lemma_split_absent(l, id@, i as int);
                    lemma_insert(l, id@, i as int, value);
                    assert(listing_of(entries@.insert(i as int, (id, value))) =~= l.insert(
                        i as int,
                        (id@, value),
                    ));
                }
                entries.insert(i, (id, value));
                self.entries = entries;
            },
        }
    }

    /// Puts `value` under `id` if something is there already.
    pub fn update_in_place(&mut self, id: ObjectId, value: K)
        ensures
            final(self).wf(),
            final(self)@ == if old(self)@.contains_key(id@) {
                old(self)@.insert(id@, value)
            } else {
                old(self)@
            },
    {
        let slot = self.find(&id);
        let ghost l = self.listing();
        match slot {
            Slot::At(i) => {
                let mut entries: Vec<(ObjectId, K)> = Vec::new();
                std::mem::swap(&mut entries, &mut self.entries);
                proof {
                    lemma_as_map_at(l, i as int);
                    lemma_update(l, i as int, value);
                    assert(listing_of(entries@.update(i as int, (id, value))) =~= l.update(
                        i as int,
                        (l[i as int].0, value),
                    ));
                }
                entries.set(i, (id, value));
                self.entries = entries;
            },
            Slot::Gap(i) => {
                proof {
                    lemma_split_absent(l, id@, i as int);
                }
            },
        }
    }

    /// Takes out what is held under `id`, if anything, and hands it back.
    pub fn remove(&mut self, id: &ObjectId) -> (r: Option<K>)
        ensures
            final(self).wf(),
            final(self)@ == old(self)@.remove(id@),
            r == if old(self)@.contains_key(id@) {
                Some(old(self)@[id@])
            } else {
                None
            },
    {
        let slot = self.find(id);
        let ghost l = self.listing();
        match slot {
            Slot::At(i) => {
                let mut entries: Vec<(ObjectId, K)> = Vec::new();
                std::mem::swap(&mut entries, &mut self.entries);
                proof {
                    lemma_as_map_at(l, i as int);
                    lemma_remove(l, i as int);
                    assert(listing_of(entries@.remove(i as int)) =~= l.remove(i as int));
                }
                let gone = entries.remove(i);
                self.entries = entries;
                Some(gone.1)
            },
            Slot::Gap(i) => {
                proof {
                    lemma_split_absent(l, id@, i as int);
                    assert(self@ =~= self@.remove(id@));
                }
                None
            },
        }
    }

    /// A copy of every object held, in the order of their identities.
    pub fn values(&self) -> (out: Vec<K>) where K: Clone
        ensures
            self.wf(),
            out@.len() == self.listing().len(),
            out@.len() == self@.len(),
            forall|i: int| 0 <= i < out@.len() ==> cloned(self.listing()[i].1, #[trigger] out@[i]),
    {
        proof {
            use_type_invariant(self);
            lemma_listing_len(self.listing());
        }
        let mut out: Vec<K> = Vec::new();
        let mut i: usize = 0;
        while i < self.entries.len()
            invariant
                i <= self.entries@.len(),
                out@.len() == i,
                self.listing().len() == self.entries@.len(),
                forall|j: int| 0 <= j < i ==> cloned(self.listing()[j].1, #[trigger] out@[j]),
            decreases self.entries@.len() - i,
        {
            out.push(self.entries[i].1.clone());
            i += 1;
        }
        out
    }
}

} // verus!
