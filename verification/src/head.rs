//! The `HEAD` of a repository.

use vstd::prelude::*;

use crate::hash::ObjectId;
use crate::refs::Reference;

verus! {

/// What `HEAD` is.
#[derive(Clone, Debug, PartialEq, Eq)]
pub enum Kind {
    /// The existing reference the symbolic head points to.
    Symbolic(Reference),
    /// The not-yet-existing reference the symbolic head refers to.
    Unborn(Vec<u8>),
    /// A direct object id, with the id it peels to when it is a tag.
    Detached {
        /// The object the head points at.
        target: ObjectId,
        /// The commit a tag target peels to, when known.
        peeled: Option<ObjectId>,
    },
}

/// The head reference of a repository.
#[derive(Clone, Debug, PartialEq, Eq)]
pub struct Head {
    /// What the head is.
    pub kind: Kind,
}

impl Head {
    /// Whether the head points directly at an object, outside any branch.
    pub fn is_detached(&self) -> (r: bool)
        ensures
            r == (self.kind is Detached),
    {
        match &self.kind {
            Kind::Detached { .. } => true,
            _ => false,
        }
    }

    /// The reference a born symbolic head points to.
    ///
    /// A detached or unborn head has no such reference; asking for one is a
    /// caller bug, so those heads are excluded up front.
    pub fn into_reference(self) -> (r: Reference)
        requires
            self.kind is Symbolic,
        ensures
            self.kind matches Kind::Symbolic(inner) ==> r == inner,
    {
        match self.kind {
            Kind::Symbolic(r) => r,
            _ => {
                proof {
                    assert(false);
                }
                Reference { name: Vec::new(), target: crate::refs::Target::Object(ObjectId { w0: 0, w1: 0, w2: 0 }) }
            },
        }
    }

    /// The name the head refers to, unless it is detached.
    pub fn name(&self) -> (r: Option<&Vec<u8>>)
        ensures
            r is Some <==> !(self.kind is Detached),
            self.kind matches Kind::Symbolic(inner) ==> r matches Some(n) && n@ == inner.name@,
            self.kind matches Kind::Unborn(u) ==> r matches Some(n) && n@ == u@,
    {
        match &self.kind {
            Kind::Symbolic(r) => Some(&r.name),
            Kind::Unborn(name) => Some(name),
            Kind::Detached { .. } => None,
        }
    }
}

} // verus!
