//! The versioned cache: the objects believed to exist, and the version
//! marker from which the change feed goes on.

use crate::cache::{as_map, increasing, Cache};
use crate::event::{failure, Error, ObjectList, WatchEvent, Watched};
use crate::meta::Meta;
use crate::object_id::{ObjectId, ObjectIdView};
use vstd::prelude::*;
use vstd::string::*;

verus! {

/// The text of the marker that stands for "no version seen yet".
pub open spec fn zero_version() -> Seq<char> {
    seq!['0']
}

/// The marker that stands for "no version seen yet": `"0"`.
pub fn zero_marker() -> (v: String)
    ensures
        v@ == zero_version(),
{
    proof {
        reveal_strlit("0");
        assert("0"@ =~= zero_version());
    }
    String::from_str("0")
}

/// The map in which every object of `items` stands under its identity;
/// where two share an identity, the later one.
pub open spec fn indexed<K: Meta>(items: Seq<K>) -> Map<ObjectIdView, K>
    decreases items.len(),
{
    if items.len() == 0 {
        Map::empty()
    } else {
        indexed(items.drop_last()).insert(ObjectId::spec_key_for(&items.last()), items.last())
    }
}

/// What a `State` stands for.
pub struct StateView<K> {
    pub data: Map<ObjectIdView, K>,
    pub version: Seq<char>,
}

impl<K> StateView<K> {
    /// The state before anything was seen: no objects, version `"0"`.
    pub open spec fn initial() -> StateView<K> {
        StateView { data: Map::empty(), version: zero_version() }
    }
}

impl<K: Meta> StateView<K> {
    /// The state once `o` has been seen: its version marker, if it carries
    /// one, is the new version.
    pub open spec fn adopt(self, o: K) -> StateView<K> {
        StateView {
            data: self.data,
            version: match o.spec_resource_ver() {
                Some(v) => v,
                None => self.version,
            },
        }
    }

    /// The state after one event.
    pub open spec fn apply(self, ev: WatchEvent<K>) -> StateView<K> {
        match ev {
            WatchEvent::Added(o) => {
                let id = ObjectId::spec_key_for(&o);
                let seen = self.adopt(o);
                if seen.data.contains_key(id) {
                    seen
                } else {
                    StateView { data: seen.data.insert(id, o), version: seen.version }
                }
            },
            WatchEvent::Modified(o) => {
                let id = ObjectId::spec_key_for(&o);
                let seen = self.adopt(o);
                if seen.data.contains_key(id) {
                    StateView { data: seen.data.insert(id, o), version: seen.version }
                } else {
                    seen
                }
            },
            WatchEvent::Deleted(o) => {
                let seen = self.adopt(o);
                StateView {
                    data: seen.data.remove(ObjectId::spec_key_for(&o)),
                    version: seen.version,
                }
            },
            WatchEvent::Bookmark(o) => self.adopt(o),
            WatchEvent::Error(_) => self,
        }
    }

    /// The state after one item of the feed: an item that fails changes
    /// nothing.
    pub open spec fn step(self, item: Watched<K>) -> StateView<K> {
        match item {
            Ok(ev) => self.apply(ev),
            Err(_) => self,
        }
    }

    /// The state after a feed: its items are applied in order, up to the
    /// first that fails.
    pub open spec fn run(self, items: Seq<Watched<K>>) -> StateView<K>
        decreases items.len(),
    {
        if items.len() == 0 || failure(items[0]) is Some {
            self
        } else {
            self.step(items[0]).run(items.drop_first())
        }
    }

    /// The state that a snapshot gives.
    pub open spec fn snapshot(list: ObjectList<K>) -> StateView<K> {
        StateView {
            data: indexed(list.items@),
            version: match list.resource_version {
                Some(v) => v@,
                None => zero_version(),
            },
        }
    }
}

/// How a feed ends: with the error of its first failing item, if it has one.
pub open spec fn outcome<K>(items: Seq<Watched<K>>) -> Result<(), Error>
    decreases items.len(),
{
    if items.len() == 0 {
        Ok(())
    } else {
        match failure(items[0]) {
            Some(e) => Err(e),
            None => outcome(items.drop_first()),
        }
    }
}

/// The versioned cache.
pub struct State<K> {
    data: Cache<K>,
    version: String,
}

impl<K> View for State<K> {
    type V = StateView<K>;

    closed spec fn view(&self) -> StateView<K> {
        StateView { data: self.data@, version: self.version@ }
    }
}

impl<K> Default for State<K> {
    /// No objects, version `"0"`.
    fn default() -> (s: State<K>)
        ensures
            s@ == StateView::<K>::initial(),
    {
        State { data: Cache::new(), version: zero_marker() }
    }
}

impl<K> State<K> {
    /// The objects with their identities, in the order of the identities.
    pub closed spec fn listing(&self) -> Seq<(ObjectIdView, K)> {
        self.data.listing()
    }

    /// The version marker from which the change feed goes on.
    pub fn version(&self) -> (v: &String)
        ensures
            v@ == self@.version,
    {
        &self.version
    }

    /// The object held under `id`, if there is one.
    pub fn get(&self, id: &ObjectId) -> (r: Option<&K>)
        ensures
            r == if self@.data.contains_key(id@) {
                Some(&self@.data[id@])
            } else {
                None
            },
    {
        self.data.get(id)
    }

    /// A copy of every object held, in the order of their identities.
    pub fn values(&self) -> (out: Vec<K>) where K: Clone
        ensures
            increasing(self.listing()),
            as_map(self.listing()) == self@.data,
            out@.len() == self.listing().len(),
            out@.len() == self@.data.len(),
            forall|i: int| 0 <= i < out@.len() ==> cloned(self.listing()[i].1, #[trigger] out@[i]),
    {
        self.data.values()
    }
}

impl<K: Meta> State<K> {
    /// Takes over the version marker of `o`, if it carries one.
    fn adopt(&mut self, o: &K)
        ensures
            final(self)@ == old(self)@.adopt(*o),
    {
        if let Some(v) = o.resource_ver() {
            self.version = v;
        }
    }

    /// Applies one item of the change feed. An event about an object first
    /// moves the version to the object's marker and then changes the data:
    /// `Added` inserts unless the identity is present, `Modified` overwrites
    /// if it is present, `Deleted` removes, `Bookmark` changes nothing. An
    /// error event or a transport error changes nothing and is handed back.
    pub fn apply_event(&mut self, item: Watched<K>) -> (r: Result<(), Error>)
        ensures
            final(self)@ == old(self)@.step(item),
            r == match failure(item) {
                Some(e) => Err::<(), Error>(e),
                None => Ok(()),
            },
    {
        match item {
            Ok(WatchEvent::Added(o)) => {
                self.adopt(&o);
                let id = ObjectId::key_for(&o);
                self.data.insert_if_absent(id, o);
                Ok(())
            },
            Ok(WatchEvent::Modified(o)) => {
                self.adopt(&o);
                let id = ObjectId::key_for(&o);
                self.data.update_in_place(id, o);
                Ok(())
            },
            Ok(WatchEvent::Deleted(o)) => {
                self.adopt(&o);
                let id = ObjectId::key_for(&o);
                self.data.remove(&id);
                Ok(())
            },
            Ok(WatchEvent::Bookmark(o)) => {
                self.adopt(&o);
                Ok(())
            },
            Ok(WatchEvent::Error(e)) => Err(Error::Stream(e)),
            Err(e) => Err(e),
        }
    }

    /// Builds the state that a snapshot gives: every object under its
    /// identity, and the snapshot's version marker, or `"0"` if it has none.
    pub fn from_snapshot(list: ObjectList<K>) -> (s: State<K>)
        ensures
            s@ == StateView::snapshot(list),
    {
        let version = match list.resource_version {
            Some(v) => v,
            None => zero_marker(),
        };
        let ghost all = list.items@;
        let mut data: Cache<K> = Cache::new();
        for o in it: list.items
            invariant
                all == it.seq(),
                data@ == indexed(all.take(it.index() as int)),
        {
            let id = ObjectId::key_for(&o);
            proof {
                let n = it.index() as int;
                assert(all.take(n + 1).drop_last() =~= all.take(n));
                assert(all.take(n + 1).last() == o);
            }
            data.insert(id, o);
        }
        proof {
            assert(all.take(all.len() as int) =~= all);
        }
        State { data, version }
    }
}

} // verus!
