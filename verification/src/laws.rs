//! What holds of the versioned cache whatever it holds and whatever the
//! change feed brings.

use crate::cache::{as_map, increasing, lemma_as_map_at, lemma_remove, position};
use crate::event::{failure, WatchEvent, Watched};
use crate::meta::Meta;
use crate::object_id::{ObjectId, ObjectIdView};
use crate::state::{indexed, outcome, StateView};
use vstd::prelude::*;

verus! {

/// The version marker that an item of the feed carries, if it carries one.
pub open spec fn marker<K: Meta>(item: Watched<K>) -> Option<Seq<char>> {
    match item {
        Ok(ev) => match ev.object() {
            Some(o) => o.spec_resource_ver(),
            None => None,
        },
        Err(_) => None,
    }
}

/// `n` is where a feed stops: nothing before the `n`th item fails, and the
/// `n`th item fails or the feed ends there.
pub open spec fn stops_at<K>(items: Seq<Watched<K>>, n: int) -> bool {
    &&& 0 <= n <= items.len()
    &&& forall|j: int| 0 <= j < n ==> failure(#[trigger] items[j]) is None
    &&& (n < items.len() ==> failure(items[n]) is Some)
}

/// Insert is idempotent: a second `Added` event for an identity changes
/// nothing in the data, whether it brings the same object or another one.
/// Where the identity was new, the object of the first event is the one held.
pub proof fn law_added_twice_keeps_first<K: Meta>(s: StateView<K>, first: K, second: K)
    requires
        ObjectId::spec_key_for(&first) == ObjectId::spec_key_for(&second),
    ensures
        s.apply(WatchEvent::Added(first)).apply(WatchEvent::Added(second)).data == s.apply(
            WatchEvent::Added(first),
        ).data,
        !s.data.contains_key(ObjectId::spec_key_for(&first)) ==> s.apply(
            WatchEvent::Added(first),
        ).apply(WatchEvent::Added(second)).data[ObjectId::spec_key_for(&first)] == first,
{
}

/// No resurrection: a `Modified` event for an identity that is absent
/// inserts nothing.
pub proof fn law_modified_absent_changes_nothing<K: Meta>(s: StateView<K>, o: K)
    requires
        !s.data.contains_key(ObjectId::spec_key_for(&o)),
    ensures
        s.apply(WatchEvent::Modified(o)).data == s.data,
{
}

/// Delete is a no-op on absence: a `Deleted` event for an identity that is
/// absent leaves the data as it is, and does not fail.
pub proof fn law_deleted_absent_changes_nothing<K: Meta>(s: StateView<K>, o: K)
    requires
        !s.data.contains_key(ObjectId::spec_key_for(&o)),
    ensures
        s.apply(WatchEvent::Deleted(o)).data == s.data,
        failure(Ok::<WatchEvent<K>, crate::event::Error>(WatchEvent::Deleted(o))) is None,
{
    assert(s.data.remove(ObjectId::spec_key_for(&o)) =~= s.data);
}

/// A feed is applied up to where it stops and no further, and it ends with
/// the error of the item at which it stops.
pub proof fn law_run_stops_at_first_failure<K: Meta>(
    s: StateView<K>,
    items: Seq<Watched<K>>,
    n: int,
)
    requires
        stops_at(items, n),
    ensures
        s.run(items) == s.run(items.take(n)),
        outcome(items) == if n < items.len() {
            Err::<(), crate::event::Error>(failure(items[n])->0)
        } else {
            Ok(())
        },
    decreases items.len(),
{
    if n == 0 {
        assert(items.take(0).len() == 0);
    } else {
        let rest = items.drop_first();
        assert forall|j: int| 0 <= j < n - 1 implies failure(#[trigger] rest[j]) is None by {
            assert(rest[j] == items[j + 1]);
        }
        law_run_stops_at_first_failure(s.step(items[0]), rest, n - 1);
        assert(items.take(n)[0] == items[0]);
        assert(items.take(n).drop_first() =~= rest.take(n - 1));
    }
}

/// While a feed brings no version marker, the version stays.
pub proof fn law_version_stays_without_marker<K: Meta>(
    s: StateView<K>,
    items: Seq<Watched<K>>,
    n: int,
)
    requires
        stops_at(items, n),
        forall|j: int| 0 <= j < n ==> marker(#[trigger] items[j]) is None,
    ensures
        s.run(items).version == s.version,
    decreases items.len(),
{
    if n > 0 {
        let rest = items.drop_first();
        assert forall|j: int| 0 <= j < n - 1 implies failure(#[trigger] rest[j]) is None && marker(
            rest[j],
        ) is None by {
            assert(rest[j] == items[j + 1]);
        }
        assert(marker(items[0]) is None);
        law_version_stays_without_marker(s.step(items[0]), rest, n - 1);
    }
}

/// Version monotonicity: after a feed, the version is the marker of the
/// last applied event that carried one. Here `n` is where the feed stops and
/// `i` is the place of that event.
pub proof fn law_version_is_last_marker<K: Meta>(
    s: StateView<K>,
    items: Seq<Watched<K>>,
    n: int,
    i: int,
)
    requires
        stops_at(items, n),
        0 <= i < n,
        marker(items[i]) is Some,
        forall|j: int| i < j < n ==> marker(#[trigger] items[j]) is None,
    ensures
        s.run(items).version == marker(items[i])->0,
    decreases items.len(),
{
    let rest = items.drop_first();
    assert(failure(items[0]) is None);
    assert forall|j: int| 0 <= j < n - 1 implies failure(#[trigger] rest[j]) is None by {
        assert(rest[j] == items[j + 1]);
    }
    if i == 0 {
        assert forall|j: int| 0 <= j < n - 1 implies marker(#[trigger] rest[j]) is None by {
            assert(rest[j] == items[j + 1]);
        }
        law_version_stays_without_marker(s.step(items[0]), rest, n - 1);
    } else {
        assert forall|j: int| i - 1 < j < n - 1 implies marker(#[trigger] rest[j]) is None by {
            assert(rest[j] == items[j + 1]);
        }
        assert(rest[i - 1] == items[i]);
        law_version_is_last_marker(s.step(items[0]), rest, n - 1, i - 1);
    }
}

/// An increasing listing is determined by its map: two increasing listings
/// of one map are the same listing.
pub proof fn law_listing_determined_by_map<K>(a: Seq<(ObjectIdView, K)>, b: Seq<(ObjectIdView, K)>)
    requires
        increasing(a),
        increasing(b),
        as_map(a) == as_map(b),
    ensures
        a == b,
    decreases a.len(),
{
    if a.len() == 0 {
        if b.len() > 0 {
            lemma_as_map_at(b, 0);
            assert(as_map(a).contains_key(b[0].0));
        }
        assert(a =~= b);
    } else {
        let n = a.len() - 1;
        let top = a[n];
        lemma_as_map_at(a, n);
        assert(as_map(b).contains_key(top.0));
        let q = position(b, top.0);
        lemma_as_map_at(b, q);
        // Nothing of `b` stands above `top`: it would be in `a` too, above its last pair.
        if q < b.len() - 1 {
            let r = b.len() - 1;
            lemma_as_map_at(b, r);
            assert(as_map(a).contains_key(b[r].0));
            let s = position(a, b[r].0);
            assert(b[q].0.precedes(b[r].0));
            if s < n {
                assert(a[s].0.precedes(a[n].0));
                top.0.lemma_asymmetric(b[r].0);
            } else {
                top.0.lemma_irreflexive();
            }
            assert(false);
        }
        lemma_remove(a, n);
        lemma_remove(b, q);
        law_listing_determined_by_map(a.remove(n), b.remove(q));
        assert(a.remove(n) =~= a.drop_last());
        assert(b.remove(q) =~= b.drop_last());
        assert(a =~= a.drop_last().push(a[n]));
        assert(b =~= b.drop_last().push(b[q]));
    }
}

/// A snapshot holds every object it was given under the object's identity:
/// the identity of each is present, and it stands for the object itself
/// unless a later one shares its identity.
pub proof fn law_snapshot_holds_every_object<K: Meta>(items: Seq<K>, i: int)
    requires
        0 <= i < items.len(),
    ensures
        indexed(items).contains_key(ObjectId::spec_key_for(&items[i])),
        (forall|j: int|
            i < j < items.len() ==> ObjectId::spec_key_for(&#[trigger] items[j])
                != ObjectId::spec_key_for(&items[i])) ==> indexed(items)[ObjectId::spec_key_for(
            &items[i],
        )] == items[i],
    decreases items.len(),
{
    if i < items.len() - 1 {
        let front = items.drop_last();
        law_snapshot_holds_every_object(front, i);
        assert(front[i] == items[i]);
        if forall|j: int|
            i < j < items.len() ==> ObjectId::spec_key_for(&#[trigger] items[j])
                != ObjectId::spec_key_for(&items[i]) {
            assert forall|j: int| i < j < front.len() implies ObjectId::spec_key_for(
                &#[trigger] front[j],
            ) != ObjectId::spec_key_for(&front[i]) by {
                assert(front[j] == items[j]);
            }
            assert(ObjectId::spec_key_for(&items[items.len() - 1]) != ObjectId::spec_key_for(
                &items[i],
            ));
        }
    }
}

/// A snapshot holds nothing else: whatever stands under an identity is one
/// of the objects given, and that identity is its own.
pub proof fn law_snapshot_holds_only_objects<K: Meta>(items: Seq<K>, id: ObjectIdView)
    requires
        indexed(items).contains_key(id),
    ensures
        exists|i: int|
            0 <= i < items.len() && ObjectId::spec_key_for(&#[trigger] items[i]) == id && indexed(
                items,
            )[id] == items[i],
    decreases items.len(),
{
    if items.len() > 0 {
        let front = items.drop_last();
        let last = items.len() - 1;
        if ObjectId::spec_key_for(&items[last]) == id {
            assert(indexed(items)[id] == items[last]);
        } else {
            law_snapshot_holds_only_objects(front, id);
            let i = choose|i: int|
                0 <= i < front.len() && ObjectId::spec_key_for(&#[trigger] front[i]) == id
                    && indexed(front)[id] == front[i];
            assert(front[i] == items[i]);
            assert(ObjectId::spec_key_for(&items[i]) == id && indexed(items)[id] == items[i]);
        }
    }
}

} // verus!
