//! What the mirror needs to know of the objects it stores.

use vstd::prelude::*;

verus! {

/// The text of an optional string.
pub open spec fn text_of(s: Option<String>) -> Option<Seq<char>> {
    match s {
        Some(t) => Some(t@),
        None => None,
    }
}

/// An object that can tell its name, its namespace and its version marker.
///
/// The mirror reads nothing else of an object. The three spec functions say
/// what the object holds, and each accessor returns exactly that: an object
/// answers the same question the same way every time it is asked.
///
/// An implementation inside `verus!` defines the three spec functions and
/// proves its accessors against them. An implementation in plain Rust
/// writes the three accessors only; the bodies that the spec functions
/// have here exist to let it leave them out, and say nothing of it. Of
/// such an implementation it is taken on trust that its accessors are
/// functions of the object.
pub trait Meta {
    /// The object's name.
    open spec fn spec_name(&self) -> Seq<char> {
        arbitrary()
    }

    /// The namespace the object lives in, if it lives in one.
    open spec fn spec_namespace(&self) -> Option<Seq<char>> {
        arbitrary()
    }

    /// The version marker the object carries, if it carries one.
    open spec fn spec_resource_ver(&self) -> Option<Seq<char>> {
        arbitrary()
    }

    /// The object's name.
    fn name(&self) -> (r: String)
        ensures
            r@ == self.spec_name(),
    ;

    /// The namespace the object lives in, if it lives in one.
    fn namespace(&self) -> (r: Option<String>)
        ensures
            text_of(r) == self.spec_namespace(),
    ;

    /// The version marker the object carries, if it carries one.
    fn resource_ver(&self) -> (r: Option<String>)
        ensures
            text_of(r) == self.spec_resource_ver(),
    ;
}

} // verus!
