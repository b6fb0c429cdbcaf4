//! The reflector: the versioned cache together with the namespace in which
//! `get` looks by default, behind the operations that keep it current and
//! read it.

use crate::cache::{as_map, increasing};
use crate::event::{failure, Error, ObjectList, Watched};
use crate::meta::{text_of, Meta};
use crate::object_id::{ObjectId, ObjectIdView};
use crate::state::{outcome, State, StateView};
use vstd::prelude::*;
use vstd::string::*;

verus! {

/// What a `Reflector` stands for.
pub struct ReflectorView<K> {
    pub state: StateView<K>,
    pub namespace: Option<Seq<char>>,
}

/// `given` is a copy of `held`: both are absent, or `given` is a clone of
/// the object held.
pub open spec fn copy_of<K: Clone>(held: Option<K>, given: Option<K>) -> bool {
    match (held, given) {
        (Some(a), Some(b)) => cloned(a, b),
        (None, None) => true,
        _ => false,
    }
}

/// A reflection of the state of a collection of remote objects.
///
/// `reset` loads a full snapshot, `poll` applies the events of one watch
/// call, and `state`, `get` and `get_within` read what is held.
pub struct Reflector<K> {
    state: State<K>,
    namespace: Option<String>,
}

impl<K> View for Reflector<K> {
    type V = ReflectorView<K>;

    closed spec fn view(&self) -> ReflectorView<K> {
        ReflectorView { state: self.state@, namespace: text_of(self.namespace) }
    }
}

impl<K> Reflector<K> {
    /// The objects with their identities, in the order of the identities.
    pub closed spec fn listing(&self) -> Seq<(ObjectIdView, K)> {
        self.state.listing()
    }

    /// Creates a reflector that holds nothing yet, at version `"0"`.
    /// `namespace` is where `get` will look: the namespace that the remote
    /// collection is confined to, or `None` if it is not confined to one.
    pub fn new(namespace: Option<String>) -> (r: Reflector<K>)
        ensures
            r@ == (ReflectorView { state: StateView::<K>::initial(), namespace: text_of(namespace) }),
    {
        Reflector { state: State::default(), namespace }
    }

    /// The version marker from which the next watch call has to go on.
    pub fn version(&self) -> (v: String)
        ensures
            v@ == self@.state.version,
    {
        self.state.version().clone()
    }
}

impl<K: Meta> Reflector<K> {
    /// Applies one item of a change feed, as `State::apply_event` does.
    pub fn apply_event(&mut self, item: Watched<K>) -> (r: Result<(), Error>)
        ensures
            final(self)@.namespace == old(self)@.namespace,
            final(self)@.state == old(self)@.state.step(item),
            r == match failure(item) {
                Some(e) => Err::<(), Error>(e),
                None => Ok(()),
            },
    {
        self.state.apply_event(item)
    }

    /// A single poll: takes what one watch call returned and brings the
    /// cache up to date with it.
    ///
    /// If the call itself failed, nothing changes and its error is handed
    /// back. Otherwise the events are applied in the order received. The
    /// first error event or transport error ends the poll with that error;
    /// what was applied before it stays applied.
    pub fn poll(&mut self, watched: Result<Vec<Watched<K>>, Error>) -> (r: Result<(), Error>)
        ensures
            final(self)@.namespace == old(self)@.namespace,
            match watched {
                Ok(items) => final(self)@.state == old(self)@.state.run(items@) && r == outcome(
                    items@,
                ),
                Err(e) => final(self)@.state == old(self)@.state && r == Err::<(), Error>(e),
            },
    {
        let items = match watched {
            Ok(items) => items,
            Err(e) => {
                return Err(e);
            },
        };
        let ghost all = items@;
        proof {
            assert(all.skip(0) =~= all);
        }
        for item in it: items
            invariant
                watched matches Ok(v) && v@ == all,
                all == it.seq(),
                self@.namespace == old(self)@.namespace,
                old(self)@.state.run(all) == self@.state.run(all.skip(it.index() as int)),
                outcome(all) == outcome(all.skip(it.index() as int)),
        {
            proof {
                let n = it.index() as int;
                let rest = all.skip(n);
                assert(rest.len() > 0 && rest[0] == item);
                assert(rest.drop_first() =~= all.skip(n + 1));
            }
            let r = self.state.apply_event(item);
            if r.is_err() {
                return r;
            }
        }
        Ok(())
    }

    /// Replaces the cache by what a list call returned.
    ///
    /// A snapshot replaces data and version as a whole: every object stands
    /// under its identity, and the version is the snapshot's marker, or
    /// `"0"` if it has none. If the call failed, the cache stays as it was
    /// and the error is handed back.
    pub fn reset(&mut self, listed: Result<ObjectList<K>, Error>) -> (r: Result<(), Error>)
        ensures
            final(self)@.namespace == old(self)@.namespace,
            match listed {
                Ok(list) => final(self)@.state == StateView::snapshot(list) && r == Ok::<
                    (),
                    Error,
                >(()),
                Err(e) => final(self)@.state == old(self)@.state && r == Err::<(), Error>(e),
            },
    {
        match listed {
            Ok(list) => {
                self.state = State::from_snapshot(list);
                Ok(())
            },
            Err(e) => Err(e),
        }
    }
}

impl<K: Clone> Reflector<K> {
    /// Read data for users of the reflector: a copy of every object held,
    /// in the order of their identities. Never fails.
    pub fn state(&self) -> (r: Result<Vec<K>, Error>)
        ensures
            increasing(self.listing()),
            as_map(self.listing()) == self@.state.data,
            r matches Ok(out) && out@.len() == self@.state.data.len() && out@.len()
                == self.listing().len() && forall|i: int|
                0 <= i < out@.len() ==> cloned(self.listing()[i].1, #[trigger] out@[i]),
    {
        Ok(self.state.values())
    }

    /// Read a single entry by name, in the namespace that the reflector was
    /// created with. Never fails.
    pub fn get(&self, name: &str) -> (r: Result<Option<K>, Error>)
        ensures
            r matches Ok(found) && copy_of(
                self@.state.data.get(ObjectIdView { name: name@, namespace: self@.namespace }),
                found,
            ),
    {
        let namespace = match &self.namespace {
            Some(ns) => Some(ns.clone()),
            None => None,
        };
        let id = ObjectId { name: String::from_str(name), namespace };
        Ok(self.lookup(&id))
    }

    /// Read a single entry by name within a specific namespace. Never fails.
    pub fn get_within(&self, name: &str, ns: &str) -> (r: Result<Option<K>, Error>)
        ensures
            r matches Ok(found) && copy_of(
                self@.state.data.get(ObjectIdView { name: name@, namespace: Some(ns@) }),
                found,
            ),
    {
        let id = ObjectId { name: String::from_str(name), namespace: Some(String::from_str(ns)) };
        Ok(self.lookup(&id))
    }

    /// A copy of the object held under `id`, if there is one.
    fn lookup(&self, id: &ObjectId) -> (found: Option<K>)
        ensures
            copy_of(self@.state.data.get(id@), found),
    {
        match self.state.get(id) {
            Some(o) => Some(o.clone()),
            None => None,
        }
    }
}

} // verus!
