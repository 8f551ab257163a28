//! Descriptors: what is recorded of one registered type.

use vstd::prelude::*;

verus! {

/// The handle of one registered type: its position in the registry that
/// issued it. A handle that no registration returned stands for a type the
/// registry does not know. Handles guard the recursion and find descriptors;
/// they are never hashed and never stored.
#[derive(Clone, Copy, Debug, PartialEq, Eq, Structural)]
pub struct TypeIdentity(pub usize);

/// The declared type of a field: its name as written, and the handles of the
/// types that its generic parameters decompose into, in order.
#[derive(Clone, Debug)]
pub struct FieldType {
    pub declared_name: String,
    pub generic_params: Vec<TypeIdentity>,
}

/// One field: its name and its declared type.
#[derive(Clone, Debug)]
pub struct Field {
    pub name: String,
    pub ty: FieldType,
}

/// One variant of an enum: its name and, where it carries any, its fields.
#[derive(Clone, Debug)]
pub struct Variant {
    pub name: String,
    pub fields: Option<Vec<Field>>,
}

/// The structure of one registered type. The order of fields and of variants
/// is part of the wire layout, and is kept.
#[derive(Clone, Debug)]
pub enum TypeDescriptor {
    Struct { name: String, fields: Vec<Field> },
    Enum { name: String, variants: Vec<Variant> },
}

impl TypeDescriptor {
    /// The declared name, whichever the kind.
    pub open spec fn spec_name(&self) -> Seq<char> {
        match *self {
            TypeDescriptor::Struct { name, .. } => name@,
            TypeDescriptor::Enum { name, .. } => name@,
        }
    }

    /// The declared name, whichever the kind.
    pub fn name(&self) -> (name: &str)
        ensures
            name@ == self.spec_name(),
    {
        match self {
            TypeDescriptor::Struct { name, .. } => name.as_str(),
            TypeDescriptor::Enum { name, .. } => name.as_str(),
        }
    }
}

} // verus!
