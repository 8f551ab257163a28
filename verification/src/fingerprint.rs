//! The structural hasher: one 32-bit fingerprint for each registered type.

use crate::descriptor::{Field, TypeDescriptor, TypeIdentity, Variant};
use crate::hasher::{
    fold_digest, hasher_finish, hasher_new, word_token, write_str, write_word, written,
};
use crate::registry::Registry;
use crate::shape::{
    digest32, encode_fields, encode_type, encode_variants, encode_words, FieldShape, TypeShape,
    VariantShape,
};
use near_stable_hasher::StableHasher;
use vstd::prelude::*;

verus! {

/// How many of the first `n` handles are not in `visited`. Every step into a
/// type takes one away, which bounds the depth of the recursion.
pub open spec fn unvisited(n: nat, visited: Set<int>) -> nat {
    Set::new(|i: int| 0 <= i < n && !visited.contains(i)).len()
}

/// Entering a registered type that is not in progress leaves fewer handles
/// to enter.
pub proof fn lemma_enter_decreases(n: nat, visited: Set<int>, id: int)
    requires
        0 <= id < n,
        !visited.contains(id),
    ensures
        unvisited(n, visited.insert(id)) < unvisited(n, visited),
{
    let before = Set::new(|i: int| 0 <= i < n && !visited.contains(i));
    let after = Set::new(|i: int| 0 <= i < n && !visited.insert(id).contains(i));
    vstd::set_lib::lemma_int_range(0, n as int);
    assert(before.subset_of(vstd::set_lib::set_int_range(0, n as int)));
    vstd::set_lib::lemma_len_subset(before, vstd::set_lib::set_int_range(0, n as int));
    assert(after =~= before.remove(id));
}

/// The fingerprint of the type registered under `id`, computed while the
/// types in `visited` are in progress: 0 where `id` is not registered or is
/// in progress itself, else the digest of the type's encoded shape.
pub open spec fn type_hash(reg: Seq<TypeDescriptor>, id: int, visited: Set<int>) -> u32
    decreases unvisited(reg.len(), visited), 0nat,
{
    if 0 <= id < reg.len() && !visited.contains(id) {
        proof {
            lemma_enter_decreases(reg.len(), visited, id);
        }
        digest32(encode_type(resolve_type(reg, reg[id], visited.insert(id))))
    } else {
        0
    }
}

/// The hashes that a run of generic parameters resolves to.
pub open spec fn resolve_params(
    reg: Seq<TypeDescriptor>,
    params: Seq<TypeIdentity>,
    visited: Set<int>,
) -> Seq<u32>
    decreases unvisited(reg.len(), visited), 1nat,
{
    Seq::new(params.len(), |k: int| type_hash(reg, params[k].0 as int, visited))
}

/// A field with its parameters resolved.
pub open spec fn resolve_field(
    reg: Seq<TypeDescriptor>,
    field: Field,
    visited: Set<int>,
) -> FieldShape
    decreases unvisited(reg.len(), visited), 2nat,
{
    FieldShape {
        name: field.name@,
        declared_name: field.ty.declared_name@,
        params: resolve_params(reg, field.ty.generic_params@, visited),
    }
}

/// A run of fields with their parameters resolved.
pub open spec fn resolve_fields(
    reg: Seq<TypeDescriptor>,
    fields: Seq<Field>,
    visited: Set<int>,
) -> Seq<FieldShape>
    decreases unvisited(reg.len(), visited), 3nat,
{
    Seq::new(fields.len(), |k: int| resolve_field(reg, fields[k], visited))
}

/// A variant with its parameters resolved.
pub open spec fn resolve_variant(
    reg: Seq<TypeDescriptor>,
    variant: Variant,
    visited: Set<int>,
) -> VariantShape
    decreases unvisited(reg.len(), visited), 4nat,
{
    VariantShape {
        name: variant.name@,
        fields: match variant.fields {
            Some(fields) => Some(resolve_fields(reg, fields@, visited)),
            None => None,
        },
    }
}

/// A run of variants with their parameters resolved.
pub open spec fn resolve_variants(
    reg: Seq<TypeDescriptor>,
    variants: Seq<Variant>,
    visited: Set<int>,
) -> Seq<VariantShape>
    decreases unvisited(reg.len(), visited), 5nat,
{
    Seq::new(variants.len(), |k: int| resolve_variant(reg, variants[k], visited))
}

/// The shape of a descriptor: its names kept, each generic parameter
/// replaced by the hash it resolves to while `visited` is in progress.
pub open spec fn resolve_type(
    reg: Seq<TypeDescriptor>,
    descriptor: TypeDescriptor,
    visited: Set<int>,
) -> TypeShape
    decreases unvisited(reg.len(), visited), 6nat,
{
    match descriptor {
        TypeDescriptor::Struct { name, fields } => TypeShape::Struct {
            name: name@,
            fields: resolve_fields(reg, fields@, visited),
        },
        TypeDescriptor::Enum { name, variants } => TypeShape::Enum {
            name: name@,
            variants: resolve_variants(reg, variants@, visited),
        },
    }
}

/// The types whose fingerprint is being computed: the guard that ends the
/// recursion on a cyclic type graph. It is made for one registry and holds
/// handles of that registry only.
pub struct InProgress {
    flags: Vec<bool>,
}

impl View for InProgress {
    type V = Set<int>;

    closed spec fn view(&self) -> Set<int> {
        Set::new(|i: int| 0 <= i < self.flags@.len() && self.flags@[i])
    }
}

impl InProgress {
    /// The size of the registry that the guard was made for.
    pub closed spec fn capacity(&self) -> nat {
        self.flags@.len()
    }

    /// A guard for `registry`, with no type in progress.
    pub fn new(registry: &Registry) -> (guard: InProgress)
        ensures
            guard@ == Set::<int>::empty(),
            guard.capacity() == registry@.len(),
    {
        let n = registry.len();
        let mut flags: Vec<bool> = Vec::new();
        while flags.len() < n
            invariant
                flags@.len() <= n,
                forall|i: int| 0 <= i < flags@.len() ==> !flags@[i],
            decreases n - flags@.len(),
        {
            flags.push(false);
        }
        let guard = InProgress { flags };
        assert(guard@ =~= Set::<int>::empty());
        guard
    }

    /// Whether the type is in progress.
    pub fn contains(&self, id: TypeIdentity) -> (found: bool)
        ensures
            found == self@.contains(id.0 as int),
    {
        id.0 < self.flags.len() && self.flags[id.0]
    }

    /// Marks a type as in progress.
    pub fn insert(&mut self, id: TypeIdentity)
        requires
            id.0 < old(self).capacity(),
        ensures
            final(self)@ == old(self)@.insert(id.0 as int),
            final(self).capacity() == old(self).capacity(),
    {
        self.flags.set(id.0, true);
        assert(self@ =~= old(self)@.insert(id.0 as int));
    }

    /// Marks a type as no longer in progress.
    pub fn remove(&mut self, id: TypeIdentity)
        requires
            id.0 < old(self).capacity(),
        ensures
            final(self)@ == old(self)@.remove(id.0 as int),
            final(self).capacity() == old(self).capacity(),
    {
        self.flags.set(id.0, false);
        assert(self@ =~= old(self)@.remove(id.0 as int));
    }
}

/// Computes the fingerprint of a registered type while the types in
/// `types_in_compute` are in progress, and leaves that guard as it found it.
///
/// A type that is in progress already gives 0 and is not entered again: this
/// is what ends the recursion on a cycle.
pub fn compute_hash(
    id: TypeIdentity,
    registry: &Registry,
    types_in_compute: &mut InProgress,
) -> (hash: u32)
    requires
        Registry::knows(registry@, id),
        old(types_in_compute).capacity() == registry@.len(),
    ensures
        hash == type_hash(registry@, id.0 as int, old(types_in_compute)@),
        final(types_in_compute)@ == old(types_in_compute)@,
        final(types_in_compute).capacity() == old(types_in_compute).capacity(),
    decreases unvisited(registry@.len(), old(types_in_compute)@), 0nat,
{
    if types_in_compute.contains(id) {
        return 0;
    }
    let ghost outer = types_in_compute@;
    let ghost inner = outer.insert(id.0 as int);
    proof {
        lemma_enter_decreases(registry@.len(), outer, id.0 as int);
    }
    types_in_compute.insert(id);

    let mut hasher = hasher_new();
    match registry.descriptor(id) {
        TypeDescriptor::Struct { name, fields } => {
            write_str(&mut hasher, "struct");
            write_str(&mut hasher, name.as_str());
            compute_fields_hash(fields, registry, types_in_compute, &mut hasher);
        },
        TypeDescriptor::Enum { name, variants } => {
            write_str(&mut hasher, "enum");
            write_str(&mut hasher, name.as_str());
            let ghost head = written(hasher);
            let ghost shapes = resolve_variants(registry@, variants@, inner);
            let mut k: usize = 0;
            while k < variants.len()
                invariant
                    k <= variants.len(),
                    types_in_compute@ == inner,
                    types_in_compute.capacity() == registry@.len(),
                    shapes == resolve_variants(registry@, variants@, inner),
                    unvisited(registry@.len(), inner) < unvisited(registry@.len(), outer),
                    outer == old(types_in_compute)@,
                    written(hasher) == head + encode_variants(shapes.take(k as int)),
                decreases variants.len() - k,
            {
                let variant = &variants[k];
                write_str(&mut hasher, variant.name.as_str());
                if let Some(fields) = &variant.fields {
                    compute_fields_hash(fields, registry, types_in_compute, &mut hasher);
                }
                proof {
                    assert(shapes.take(k + 1).drop_last() =~= shapes.take(k as int));
                    assert(shapes.take(k + 1).last() == resolve_variant(
                        registry@,
                        variants@[k as int],
                        inner,
                    ));
                }
                k += 1;
            }
            assert(shapes.take(k as int) =~= shapes);
        },
    }

    types_in_compute.remove(id);
    assert(types_in_compute@ =~= outer);
    fold_digest(hasher_finish(&hasher))
}

/// Feeds a run of fields to the hasher: for each field its name, the name of
/// its declared type, and the hash of each generic parameter, in order.
pub fn compute_fields_hash(
    fields: &Vec<Field>,
    registry: &Registry,
    types_in_compute: &mut InProgress,
    hasher: &mut StableHasher,
)
    requires
        old(types_in_compute).capacity() == registry@.len(),
    ensures
        written(*final(hasher)) == written(*old(hasher)) + encode_fields(
            resolve_fields(registry@, fields@, old(types_in_compute)@),
        ),
        final(types_in_compute)@ == old(types_in_compute)@,
        final(types_in_compute).capacity() == old(types_in_compute).capacity(),
    decreases unvisited(registry@.len(), old(types_in_compute)@), 2nat,
{
    let ghost visited = types_in_compute@;
    let ghost head = written(*hasher);
    let ghost shapes = resolve_fields(registry@, fields@, visited);
    let mut i: usize = 0;
    while i < fields.len()
        invariant
            i <= fields.len(),
            types_in_compute@ == visited,
            visited == old(types_in_compute)@,
            types_in_compute.capacity() == registry@.len(),
            shapes == resolve_fields(registry@, fields@, visited),
            written(*hasher) == head + encode_fields(shapes.take(i as int)),
        decreases fields.len() - i,
    {
        let field = &fields[i];
        write_str(hasher, field.name.as_str());
        write_str(hasher, field.ty.declared_name.as_str());
        let ghost named = written(*hasher);
        let ghost words = resolve_params(registry@, field.ty.generic_params@, visited);
        let mut j: usize = 0;
        while j < field.ty.generic_params.len()
            invariant
                j <= field.ty.generic_params.len(),
                types_in_compute@ == visited,
                visited == old(types_in_compute)@,
                types_in_compute.capacity() == registry@.len(),
                words == resolve_params(registry@, field.ty.generic_params@, visited),
                written(*hasher) == named + encode_words(words.take(j as int)),
            decreases field.ty.generic_params.len() - j,
        {
            compute_type_hash(field.ty.generic_params[j], registry, types_in_compute, hasher);
            proof {
                assert(words.take(j + 1).drop_last() =~= words.take(j as int));
            }
            j += 1;
        }
        proof {
            assert(words.take(j as int) =~= words);
            assert(shapes.take(i + 1).drop_last() =~= shapes.take(i as int));
            assert(shapes.take(i + 1).last() == resolve_field(registry@, fields@[i as int], visited));
        }
        i += 1;
    }
    assert(shapes.take(i as int) =~= shapes);
}

/// Feeds the hash of one generic parameter to the hasher: the fingerprint of
/// the type where it is registered, 0 where it is not.
pub fn compute_type_hash(
    type_id: TypeIdentity,
    registry: &Registry,
    types_in_compute: &mut InProgress,
    hasher: &mut StableHasher,
)
    requires
        old(types_in_compute).capacity() == registry@.len(),
    ensures
        written(*final(hasher)) == written(*old(hasher)) + word_token(
            type_hash(registry@, type_id.0 as int, old(types_in_compute)@),
        ),
        final(types_in_compute)@ == old(types_in_compute)@,
        final(types_in_compute).capacity() == old(types_in_compute).capacity(),
    decreases unvisited(registry@.len(), old(types_in_compute)@), 1nat,
{
    if registry.contains(type_id) {
        let hash = compute_hash(type_id, registry, types_in_compute);
        write_word(hasher, hash);
    } else {
        write_word(hasher, 0);
    }
}

} // verus!
