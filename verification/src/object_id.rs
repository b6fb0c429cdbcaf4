//! The identity of an object: its name and, where it has one, its namespace.

use crate::byte_order::{
    lemma_precedes_irreflexive, lemma_precedes_total, lemma_precedes_transitive, precedes,
    rank_bytes, Rank,
};
use crate::meta::{text_of, Meta};
use vstd::prelude::*;
use vstd::string::*;
use vstd::utf8::{encode_utf8, encode_utf8_decode_utf8};

verus! {

/// `a` comes strictly before `b`, both compared by their UTF-8 bytes.
pub open spec fn text_precedes(a: Seq<char>, b: Seq<char>) -> bool {
    precedes(encode_utf8(a), encode_utf8(b))
}

/// The three-way comparison that `text_precedes` induces.
pub open spec fn text_rank(a: Seq<char>, b: Seq<char>) -> Rank {
    if text_precedes(a, b) {
        Rank::Before
    } else if a == b {
        Rank::Same
    } else {
        Rank::After
    }
}

/// Two texts with the same UTF-8 bytes are the same text.
pub proof fn lemma_encoding_injective(a: Seq<char>, b: Seq<char>)
    requires
        encode_utf8(a) == encode_utf8(b),
    ensures
        a == b,
{
    encode_utf8_decode_utf8(a);
    encode_utf8_decode_utf8(b);
}

/// Compares two strings as Rust orders them: byte by byte.
pub fn rank_text(a: &str, b: &str) -> (r: Rank)
    ensures
        r == text_rank(a@, b@),
{
    let r = rank_bytes(a.as_bytes(), b.as_bytes());
    proof {
        if r == Rank::Same {
            lemma_encoding_injective(a@, b@);
        }
        lemma_precedes_irreflexive(encode_utf8(a@));
    }
    r
}

/// What an `ObjectId` stands for.
pub struct ObjectIdView {
    pub name: Seq<char>,
    pub namespace: Option<Seq<char>>,
}

impl ObjectIdView {
    /// The order of identities: those without a namespace come first; among
    /// the rest the name decides, and between equal names the namespace.
    pub open spec fn precedes(self, other: ObjectIdView) -> bool {
        match (self.namespace, other.namespace) {
            (None, Some(_)) => true,
            (Some(_), None) => false,
            (None, None) => text_precedes(self.name, other.name),
            (Some(a), Some(b)) => text_precedes(self.name, other.name) || (self.name == other.name
                && text_precedes(a, b)),
        }
    }

    /// The three-way comparison that `precedes` induces.
    pub open spec fn rank(self, other: ObjectIdView) -> Rank {
        if self.precedes(other) {
            Rank::Before
        } else if self == other {
            Rank::Same
        } else {
            Rank::After
        }
    }

    /// How the identity is shown: the name, followed by the namespace in
    /// square brackets where there is one.
    pub open spec fn display(self) -> Seq<char> {
        match self.namespace {
            Some(ns) => self.name + seq![' ', '['] + ns + seq![']'],
            None => self.name,
        }
    }

    /// No identity comes before itself.
    pub proof fn lemma_irreflexive(self)
        ensures
            !self.precedes(self),
    {
        lemma_precedes_irreflexive(encode_utf8(self.name));
        if let Some(ns) = self.namespace {
            lemma_precedes_irreflexive(encode_utf8(ns));
        }
    }

    /// The order is transitive.
    pub proof fn lemma_transitive(self, b: ObjectIdView, c: ObjectIdView)
        requires
            self.precedes(b),
            b.precedes(c),
        ensures
            self.precedes(c),
    {
        if text_precedes(self.name, b.name) && text_precedes(b.name, c.name) {
            lemma_precedes_transitive(
                encode_utf8(self.name),
                encode_utf8(b.name),
                encode_utf8(c.name),
            );
        }
        match (self.namespace, b.namespace, c.namespace) {
            (Some(x), Some(y), Some(z)) => {
                if text_precedes(x, y) && text_precedes(y, z) {
                    lemma_precedes_transitive(encode_utf8(x), encode_utf8(y), encode_utf8(z));
                }
            },
            _ => {},
        }
    }

    /// Of two identities at most one comes before the other.
    pub proof fn lemma_asymmetric(self, b: ObjectIdView)
        requires
            self.precedes(b),
        ensures
            !b.precedes(self),
    {
        if b.precedes(self) {
            self.lemma_transitive(b, self);
            self.lemma_irreflexive();
        }
    }

    /// Two different identities are ordered one way or the other.
    pub proof fn lemma_total(self, b: ObjectIdView)
        ensures
            self.precedes(b) || self == b || b.precedes(self),
    {
        lemma_precedes_total(encode_utf8(self.name), encode_utf8(b.name));
        if encode_utf8(self.name) == encode_utf8(b.name) {
            lemma_encoding_injective(self.name, b.name);
        }
        match (self.namespace, b.namespace) {
            (Some(x), Some(y)) => {
                lemma_precedes_total(encode_utf8(x), encode_utf8(y));
                if encode_utf8(x) == encode_utf8(y) {
                    lemma_encoding_injective(x, y);
                }
            },
            _ => {},
        }
    }
}

/// ObjectId represents an object by name and namespace (if any).
#[derive(Clone, Debug, PartialEq, Eq, Hash)]
pub struct ObjectId {
    pub name: String,
    pub namespace: Option<String>,
}

impl View for ObjectId {
    type V = ObjectIdView;

    open spec fn view(&self) -> ObjectIdView {
        ObjectIdView { name: self.name@, namespace: text_of(self.namespace) }
    }
}

impl ObjectId {
    /// The identity of `o`.
    pub open spec fn spec_key_for<K: Meta>(o: &K) -> ObjectIdView {
        ObjectIdView { name: o.spec_name(), namespace: o.spec_namespace() }
    }

    /// Derives the identity of an object from its name and namespace.
    pub fn key_for<K: Meta>(o: &K) -> (id: ObjectId)
        ensures
            id@ == Self::spec_key_for(o),
    {
        ObjectId { name: o.name(), namespace: o.namespace() }
    }

    /// Renders `"name [namespace]"` when there is a namespace, else `"name"`.
    pub fn to_string(&self) -> (s: String)
        ensures
            s@ == self@.display(),
    {
        match &self.namespace {
            Some(ns) => {
                let mut s = self.name.clone();
                s.append(" [");
                s.append(ns.as_str());
                s.append("]");
                proof {
                    reveal_strlit(" [");
                    reveal_strlit("]");
                    assert(" ["@ =~= seq![' ', '[']);
                    assert("]"@ =~= seq![']']);
                }
                s
            },
            None => self.name.clone(),
        }
    }

    /// Compares two identities in the order of `ObjectIdView::precedes`.
    pub fn rank(&self, other: &ObjectId) -> (r: Rank)
        ensures
            r == self@.rank(other@),
    {
        match (&self.namespace, &other.namespace) {
            (None, Some(_)) => Rank::Before,
            (Some(_), None) => Rank::After,
            (None, None) => rank_text(self.name.as_str(), other.name.as_str()),
            (Some(a), Some(b)) => {
                let by_name = rank_text(self.name.as_str(), other.name.as_str());
                match by_name {
                    Rank::Same => rank_text(a.as_str(), b.as_str()),
                    _ => by_name,
                }
            },
        }
    }
}

} // verus!
