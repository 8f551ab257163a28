//! The registry: every descriptor that takes part, in registration order.

use crate::descriptor::{TypeDescriptor, TypeIdentity};
use vstd::prelude::*;

verus! {

/// The registered descriptors. A type's handle is the position at which it
/// was registered, so a registry is filled once, in a fixed order, and only
/// read while fingerprints are computed.
pub struct Registry {
    types: Vec<TypeDescriptor>,
}

impl View for Registry {
    type V = Seq<TypeDescriptor>;

    closed spec fn view(&self) -> Seq<TypeDescriptor> {
        self.types@
    }
}

impl Registry {
    /// Whether the handle was issued by a registry that holds `reg`.
    pub open spec fn knows(reg: Seq<TypeDescriptor>, id: TypeIdentity) -> bool {
        id.0 < reg.len()
    }

    /// A registry with nothing in it.
    pub fn new() -> (registry: Registry)
        ensures
            registry@ == Seq::<TypeDescriptor>::empty(),
    {
        Registry { types: Vec::new() }
    }

    /// Registers one more descriptor and returns its handle.
    pub fn register(&mut self, descriptor: TypeDescriptor) -> (id: TypeIdentity)
        ensures
            final(self)@ == old(self)@.push(descriptor),
            id.0 == old(self)@.len(),
    {
        let id = TypeIdentity(self.types.len());
        self.types.push(descriptor);
        id
    }

    /// How many types are registered.
    pub fn len(&self) -> (n: usize)
        ensures
            n == self@.len(),
    {
        self.types.len()
    }

    /// Whether a type is registered under the handle.
    pub fn contains(&self, id: TypeIdentity) -> (known: bool)
        ensures
            known == Self::knows(self@, id),
    {
        id.0 < self.types.len()
    }

    /// The descriptor of a registered type.
    pub fn descriptor(&self, id: TypeIdentity) -> (descriptor: &TypeDescriptor)
        requires
            Self::knows(self@, id),
        ensures
            *descriptor == self@[id.0 as int],
    {
        &self.types[id.0]
    }

    /// The descriptor registered under the handle. A handle that the registry
    /// does not know gives `None`, which is no error.
    pub fn get(&self, id: TypeIdentity) -> (found: Option<&TypeDescriptor>)
        ensures
            Self::knows(self@, id) ==> found == Some(&self@[id.0 as int]),
            !Self::knows(self@, id) ==> found is None,
    {
        if id.0 < self.types.len() {
            Some(&self.types[id.0])
        } else {
            None
        }
    }
}

} // verus!
