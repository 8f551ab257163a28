//! What holds of every registry: the laws of the fingerprint and of the
//! compatibility gate.
//!
//! A fingerprint is 32 bits of a digest, so two different streams can share
//! one. The laws that tell types apart therefore speak of the stream that is
//! hashed, and of the fingerprint wherever the digest keeps the two streams
//! apart.

use crate::descriptor::{Field, TypeDescriptor, TypeIdentity, Variant};
use crate::fingerprint::{
    lemma_enter_decreases, resolve_field, resolve_fields, resolve_params, resolve_type,
    resolve_variant, resolve_variants, type_hash, unvisited,
};
use crate::gate::{current_map, differences, fingerprint};
use crate::shape::{
    digest32, encode_type, lemma_encode_type_injective, lemma_kinds_encode_apart, same_layout,
    FieldShape, TypeShape,
};
use crate::snapshot::{rows_map, sorted};
use vstd::prelude::*;

verus! {

/// The shape under which a registered type is hashed from the top: only the
/// type itself is in progress while its parameters are resolved.
pub open spec fn shape_of(reg: Seq<TypeDescriptor>, id: int) -> TypeShape {
    resolve_type(reg, reg[id], Set::<int>::empty().insert(id))
}

/// The stream that is hashed for a registered type.
pub open spec fn stream_of(reg: Seq<TypeDescriptor>, id: int) -> Seq<u8> {
    encode_type(shape_of(reg, id))
}

/// Whether the digest keeps two streams apart: they are the same stream, or
/// their fingerprints differ.
pub open spec fn kept_apart(a: Seq<u8>, b: Seq<u8>) -> bool {
    a != b ==> digest32(a) != digest32(b)
}

/// The groups of fields of a shape: the fields of a struct, or for each
/// variant of an enum its fields.
pub open spec fn field_groups(shape: TypeShape) -> Seq<Seq<FieldShape>> {
    match shape {
        TypeShape::Struct { fields, .. } => seq![fields],
        TypeShape::Enum { variants, .. } => Seq::new(
            variants.len(),
            |v: int|
                match variants[v].fields {
                    Some(fields) => fields,
                    None => Seq::empty(),
                },
        ),
    }
}

/// The names of all fields of a shape, group by group.
pub open spec fn field_names(shape: TypeShape) -> Seq<Seq<Seq<char>>> {
    Seq::new(
        field_groups(shape).len(),
        |g: int| Seq::new(field_groups(shape)[g].len(), |k: int| field_groups(shape)[g][k].name),
    )
}

/// The declared type names of all fields of a shape, group by group.
pub open spec fn declared_names(shape: TypeShape) -> Seq<Seq<Seq<char>>> {
    Seq::new(
        field_groups(shape).len(),
        |g: int|
            Seq::new(
                field_groups(shape)[g].len(),
                |k: int| field_groups(shape)[g][k].declared_name,
            ),
    )
}

/// The hashes that the generic parameters of all fields resolve to.
pub open spec fn parameter_hashes(shape: TypeShape) -> Seq<Seq<Seq<u32>>> {
    Seq::new(
        field_groups(shape).len(),
        |g: int| Seq::new(field_groups(shape)[g].len(), |k: int| field_groups(shape)[g][k].params),
    )
}

/// The fingerprint of a registered type is the digest of its stream.
pub proof fn law_fingerprint_is_digest_of_stream(reg: Seq<TypeDescriptor>, id: int)
    requires
        0 <= id < reg.len(),
    ensures
        fingerprint(reg, id) == digest32(stream_of(reg, id)),
{
}

/// Alias invariance: handles do not reach the hash. Two registered types
/// with the same shape (the same names in the same order, and generic
/// parameters that resolve to the same hashes) have the same fingerprint,
/// under whichever handles they are registered.
pub proof fn law_alias_invariance(reg: Seq<TypeDescriptor>, i: int, j: int)
    requires
        0 <= i < reg.len(),
        0 <= j < reg.len(),
        shape_of(reg, i) == shape_of(reg, j),
    ensures
        stream_of(reg, i) == stream_of(reg, j),
        fingerprint(reg, i) == fingerprint(reg, j),
{
}

/// Two registered types that are laid out alike and do not have the same
/// shape are hashed from different streams, and have different fingerprints
/// wherever the digest keeps those streams apart.
pub proof fn law_shape_sensitivity(reg: Seq<TypeDescriptor>, i: int, j: int)
    requires
        0 <= i < reg.len(),
        0 <= j < reg.len(),
        same_layout(shape_of(reg, i), shape_of(reg, j)),
        shape_of(reg, i) != shape_of(reg, j),
    ensures
        stream_of(reg, i) != stream_of(reg, j),
        kept_apart(stream_of(reg, i), stream_of(reg, j)) ==> fingerprint(reg, i) != fingerprint(
            reg,
            j,
        ),
{
    if stream_of(reg, i) == stream_of(reg, j) {
        lemma_encode_type_injective(shape_of(reg, i), shape_of(reg, j));
    }
}

/// Field-name sensitivity: changing the name of any field, the layout kept,
/// changes the stream, and the fingerprint wherever the digest keeps the two
/// streams apart.
pub proof fn law_field_name_sensitivity(reg: Seq<TypeDescriptor>, i: int, j: int)
    requires
        0 <= i < reg.len(),
        0 <= j < reg.len(),
        same_layout(shape_of(reg, i), shape_of(reg, j)),
        field_names(shape_of(reg, i)) != field_names(shape_of(reg, j)),
    ensures
        stream_of(reg, i) != stream_of(reg, j),
        kept_apart(stream_of(reg, i), stream_of(reg, j)) ==> fingerprint(reg, i) != fingerprint(
            reg,
            j,
        ),
{
    law_shape_sensitivity(reg, i, j);
}

/// Declared-type sensitivity: changing the declared type name of any field,
/// a container's name included, changes the stream, and the fingerprint
/// wherever the digest keeps the two streams apart.
pub proof fn law_declared_type_sensitivity(reg: Seq<TypeDescriptor>, i: int, j: int)
    requires
        0 <= i < reg.len(),
        0 <= j < reg.len(),
        same_layout(shape_of(reg, i), shape_of(reg, j)),
        declared_names(shape_of(reg, i)) != declared_names(shape_of(reg, j)),
    ensures
        stream_of(reg, i) != stream_of(reg, j),
        kept_apart(stream_of(reg, i), stream_of(reg, j)) ==> fingerprint(reg, i) != fingerprint(
            reg,
            j,
        ),
{
    law_shape_sensitivity(reg, i, j);
}

/// Generic-parameter sensitivity: where a generic parameter of any field
/// resolves to another hash, the stream changes, and the fingerprint
/// wherever the digest keeps the two streams apart.
pub proof fn law_parameter_sensitivity(reg: Seq<TypeDescriptor>, i: int, j: int)
    requires
        0 <= i < reg.len(),
        0 <= j < reg.len(),
        same_layout(shape_of(reg, i), shape_of(reg, j)),
        parameter_hashes(shape_of(reg, i)) != parameter_hashes(shape_of(reg, j)),
    ensures
        stream_of(reg, i) != stream_of(reg, j),
        kept_apart(stream_of(reg, i), stream_of(reg, j)) ==> fingerprint(reg, i) != fingerprint(
            reg,
            j,
        ),
{
    law_shape_sensitivity(reg, i, j);
}

/// Kind discrimination: a struct and an enum are hashed from different
/// streams, whatever their names and contents, and have different
/// fingerprints wherever the digest keeps those streams apart.
pub proof fn law_kind_discrimination(reg: Seq<TypeDescriptor>, i: int, j: int)
    requires
        0 <= i < reg.len(),
        0 <= j < reg.len(),
        reg[i] is Struct,
        reg[j] is Enum,
    ensures
        stream_of(reg, i) != stream_of(reg, j),
        kept_apart(stream_of(reg, i), stream_of(reg, j)) ==> fingerprint(reg, i) != fingerprint(
            reg,
            j,
        ),
{
    lemma_kinds_encode_apart(shape_of(reg, i), shape_of(reg, j));
}

/// Two runs of generic parameters that cannot be told apart: as many on
/// each side, and place by place two handles that are both unregistered or
/// resolve to the same hash.
pub open spec fn params_alike(
    reg: Seq<TypeDescriptor>,
    a: Seq<TypeIdentity>,
    a_visited: Set<int>,
    b: Seq<TypeIdentity>,
    b_visited: Set<int>,
) -> bool {
    &&& a.len() == b.len()
    &&& forall|p: int|
        0 <= p < a.len() ==> {
            ||| (a[p].0 >= reg.len() && b[p].0 >= reg.len())
            ||| type_hash(reg, a[p].0 as int, a_visited) == type_hash(
                reg,
                b[p].0 as int,
                b_visited,
            )
        }
}

/// Two runs of fields that cannot be told apart: the same names and declared
/// type names in the same order, and parameters that cannot be told apart.
pub open spec fn fields_alike(
    reg: Seq<TypeDescriptor>,
    a: Seq<Field>,
    a_visited: Set<int>,
    b: Seq<Field>,
    b_visited: Set<int>,
) -> bool {
    &&& a.len() == b.len()
    &&& forall|k: int|
        0 <= k < a.len() ==> {
            &&& (#[trigger] a[k]).name@ == b[k].name@
            &&& a[k].ty.declared_name@ == b[k].ty.declared_name@
            &&& params_alike(
                reg,
                a[k].ty.generic_params@,
                a_visited,
                b[k].ty.generic_params@,
                b_visited,
            )
        }
}

/// Two runs of variants that cannot be told apart.
pub open spec fn variants_alike(
    reg: Seq<TypeDescriptor>,
    a: Seq<Variant>,
    a_visited: Set<int>,
    b: Seq<Variant>,
    b_visited: Set<int>,
) -> bool {
    &&& a.len() == b.len()
    &&& forall|k: int|
        0 <= k < a.len() ==> {
            &&& (#[trigger] a[k]).name@ == b[k].name@
            &&& match (a[k].fields, b[k].fields) {
                (Some(fa), Some(fb)) => fields_alike(reg, fa@, a_visited, fb@, b_visited),
                (None, None) => true,
                _ => false,
            }
        }
}

/// Two descriptors that cannot be told apart: the same kind and names, and
/// generic parameters that are unregistered on both sides or resolve to the
/// same hash.
pub open spec fn descriptors_alike(reg: Seq<TypeDescriptor>, i: int, j: int) -> bool {
    let a_visited = Set::<int>::empty().insert(i);
    let b_visited = Set::<int>::empty().insert(j);
    match (reg[i], reg[j]) {
        (
            TypeDescriptor::Struct { name: na, fields: fa },
            TypeDescriptor::Struct { name: nb, fields: fb },
        ) => na@ == nb@ && fields_alike(reg, fa@, a_visited, fb@, b_visited),
        (
            TypeDescriptor::Enum { name: na, variants: va },
            TypeDescriptor::Enum { name: nb, variants: vb },
        ) => na@ == nb@ && variants_alike(reg, va@, a_visited, vb@, b_visited),
        _ => false,
    }
}

proof fn lemma_fields_alike(
    reg: Seq<TypeDescriptor>,
    a: Seq<Field>,
    a_visited: Set<int>,
    b: Seq<Field>,
    b_visited: Set<int>,
)
    requires
        fields_alike(reg, a, a_visited, b, b_visited),
    ensures
        resolve_fields(reg, a, a_visited) == resolve_fields(reg, b, b_visited),
{
    let ra = resolve_fields(reg, a, a_visited);
    let rb = resolve_fields(reg, b, b_visited);
    assert forall|k: int| 0 <= k < ra.len() implies ra[k] == rb[k] by {
        let pa = a[k].ty.generic_params@;
        let pb = b[k].ty.generic_params@;
        assert(params_alike(reg, pa, a_visited, pb, b_visited));
        assert(resolve_params(reg, pa, a_visited) =~= resolve_params(reg, pb, b_visited));
        assert(ra[k] == resolve_field(reg, a[k], a_visited));
        assert(rb[k] == resolve_field(reg, b[k], b_visited));
    }
    assert(ra =~= rb);
}

proof fn lemma_variants_alike(
    reg: Seq<TypeDescriptor>,
    a: Seq<Variant>,
    a_visited: Set<int>,
    b: Seq<Variant>,
    b_visited: Set<int>,
)
    requires
        variants_alike(reg, a, a_visited, b, b_visited),
    ensures
        resolve_variants(reg, a, a_visited) == resolve_variants(reg, b, b_visited),
{
    let ra = resolve_variants(reg, a, a_visited);
    let rb = resolve_variants(reg, b, b_visited);
    assert forall|k: int| 0 <= k < ra.len() implies ra[k] == rb[k] by {
        assert(a[k].name@ == b[k].name@);
        match (a[k].fields, b[k].fields) {
            (Some(fa), Some(fb)) => {
                lemma_fields_alike(reg, fa@, a_visited, fb@, b_visited);
            },
            _ => {},
        }
        assert(ra[k] == resolve_variant(reg, a[k], a_visited));
        assert(rb[k] == resolve_variant(reg, b[k], b_visited));
    }
    assert(ra =~= rb);
}

/// The blind spot: what lies behind an unregistered handle is not hashed.
/// Two registered types whose descriptors hold the same names, and whose
/// generic parameters are place by place both unregistered or of the same
/// hash, have the same fingerprint, however different the types behind the
/// unregistered handles are.
pub proof fn law_blind_spot(reg: Seq<TypeDescriptor>, i: int, j: int)
    requires
        0 <= i < reg.len(),
        0 <= j < reg.len(),
        descriptors_alike(reg, i, j),
    ensures
        shape_of(reg, i) == shape_of(reg, j),
        fingerprint(reg, i) == fingerprint(reg, j),
{
    let a_visited = Set::<int>::empty().insert(i);
    let b_visited = Set::<int>::empty().insert(j);
    match (reg[i], reg[j]) {
        (
            TypeDescriptor::Struct { name: na, fields: fa },
            TypeDescriptor::Struct { name: nb, fields: fb },
        ) => {
            lemma_fields_alike(reg, fa@, a_visited, fb@, b_visited);
        },
        (
            TypeDescriptor::Enum { name: na, variants: va },
            TypeDescriptor::Enum { name: nb, variants: vb },
        ) => {
            lemma_variants_alike(reg, va@, a_visited, vb@, b_visited);
        },
        _ => {},
    }
}

/// Idempotence: what a run finds depends on the registry and the
/// stored lines alone, and against stored lines that bind the same names to
/// the same fingerprints as the registry it finds nothing, on every run.
pub proof fn law_gate_idempotent(
    reg: Seq<TypeDescriptor>,
    stored: Seq<(Seq<char>, u32)>,
    current: Seq<(Seq<char>, u32)>,
)
    requires
        sorted(stored),
        sorted(current),
        rows_map(current) == current_map(reg, reg.len() as int),
        rows_map(stored) == current_map(reg, reg.len() as int),
    ensures
        differences(stored, current).len() == 0,
{
    crate::gate::lemma_no_differences(stored, current);
}

/// Whether every generic parameter of a run of fields is in `handles`.
pub open spec fn fields_within(fields: Seq<Field>, handles: Set<int>) -> bool {
    forall|k: int, p: int|
        0 <= k < fields.len() && 0 <= p < fields[k].ty.generic_params@.len()
            ==> handles.contains(#[trigger] fields[k].ty.generic_params@[p].0 as int)
}

/// Whether every generic parameter of a descriptor is in `handles`.
pub open spec fn descriptor_within(descriptor: TypeDescriptor, handles: Set<int>) -> bool {
    match descriptor {
        TypeDescriptor::Struct { fields, .. } => fields_within(fields@, handles),
        TypeDescriptor::Enum { variants, .. } => forall|v: int|
            0 <= v < variants@.len() ==> match (#[trigger] variants@[v]).fields {
                Some(fields) => fields_within(fields@, handles),
                None => true,
            },
    }
}

/// Whether `handles` holds, with each registered type in it, the generic
/// parameters of that type: whatever can be reached from it is in it.
pub open spec fn closed(reg: Seq<TypeDescriptor>, handles: Set<int>) -> bool {
    forall|id: int|
        0 <= id < reg.len() && handles.contains(id) ==> descriptor_within(
            #[trigger] reg[id],
            handles,
        )
}

/// Whether two guards agree on every handle in `handles`.
pub open spec fn agree_on(a: Set<int>, b: Set<int>, handles: Set<int>) -> bool {
    forall|id: int| handles.contains(id) ==> a.contains(id) == b.contains(id)
}

/// The frame of a fingerprint: it depends on the guard only through the
/// handles that can be reached from the type. Two guards that agree on a
/// closed set of handles give every type of the set the same hash.
pub proof fn lemma_frame(
    reg: Seq<TypeDescriptor>,
    id: int,
    a: Set<int>,
    b: Set<int>,
    handles: Set<int>,
)
    requires
        closed(reg, handles),
        agree_on(a, b, handles),
        handles.contains(id),
    ensures
        type_hash(reg, id, a) == type_hash(reg, id, b),
    decreases unvisited(reg.len(), a), 0nat,
{
    if 0 <= id < reg.len() && !a.contains(id) {
        lemma_enter_decreases(reg.len(), a, id);
        let a_in = a.insert(id);
        let b_in = b.insert(id);
        assert(agree_on(a_in, b_in, handles));
        assert(descriptor_within(reg[id], handles));
        match reg[id] {
            TypeDescriptor::Struct { name, fields } => {
                lemma_frame_fields(reg, fields@, a_in, b_in, handles);
            },
            TypeDescriptor::Enum { name, variants } => {
                let ra = resolve_variants(reg, variants@, a_in);
                let rb = resolve_variants(reg, variants@, b_in);
                assert forall|v: int| 0 <= v < ra.len() implies ra[v] == rb[v] by {
                    match variants@[v].fields {
                        Some(fields) => {
                            lemma_frame_fields(reg, fields@, a_in, b_in, handles);
                        },
                        None => {},
                    }
                    assert(ra[v] == resolve_variant(reg, variants@[v], a_in));
                    assert(rb[v] == resolve_variant(reg, variants@[v], b_in));
                }
                assert(ra =~= rb);
            },
        }
    }
}

proof fn lemma_frame_fields(
    reg: Seq<TypeDescriptor>,
    fields: Seq<Field>,
    a: Set<int>,
    b: Set<int>,
    handles: Set<int>,
)
    requires
        closed(reg, handles),
        agree_on(a, b, handles),
        fields_within(fields, handles),
    ensures
        resolve_fields(reg, fields, a) == resolve_fields(reg, fields, b),
    decreases unvisited(reg.len(), a), 1nat,
{
    let ra = resolve_fields(reg, fields, a);
    let rb = resolve_fields(reg, fields, b);
    assert forall|k: int| 0 <= k < ra.len() implies ra[k] == rb[k] by {
        let params = fields[k].ty.generic_params@;
        let pa = resolve_params(reg, params, a);
        let pb = resolve_params(reg, params, b);
        assert forall|p: int| 0 <= p < pa.len() implies pa[p] == pb[p] by {
            assert(handles.contains(fields[k].ty.generic_params@[p].0 as int));
            lemma_frame(reg, params[p].0 as int, a, b, handles);
        }
        assert(pa =~= pb);
        assert(ra[k] == resolve_field(reg, fields[k], a));
        assert(rb[k] == resolve_field(reg, fields[k], b));
    }
    assert(ra =~= rb);
}

/// Two runs of fields that are declared alike: the same names, declared type
/// names and generic parameters, in the same order.
pub open spec fn fields_declared_alike(a: Seq<Field>, b: Seq<Field>) -> bool {
    &&& a.len() == b.len()
    &&& forall|k: int|
        0 <= k < a.len() ==> {
            &&& (#[trigger] a[k]).name@ == b[k].name@
            &&& a[k].ty.declared_name@ == b[k].ty.declared_name@
            &&& a[k].ty.generic_params@ == b[k].ty.generic_params@
        }
}

/// Two descriptors that are declared alike: the same kind and name, and
/// fields or variants that are declared alike.
pub open spec fn declared_alike(a: TypeDescriptor, b: TypeDescriptor) -> bool {
    match (a, b) {
        (
            TypeDescriptor::Struct { name: na, fields: fa },
            TypeDescriptor::Struct { name: nb, fields: fb },
        ) => na@ == nb@ && fields_declared_alike(fa@, fb@),
        (
            TypeDescriptor::Enum { name: na, variants: va },
            TypeDescriptor::Enum { name: nb, variants: vb },
        ) => {
            &&& na@ == nb@
            &&& va@.len() == vb@.len()
            &&& forall|v: int|
                0 <= v < va@.len() ==> {
                    &&& (#[trigger] va@[v]).name@ == vb@[v].name@
                    &&& match (va@[v].fields, vb@[v].fields) {
                        (Some(fa), Some(fb)) => fields_declared_alike(fa@, fb@),
                        (None, None) => true,
                        _ => false,
                    }
                }
        },
        _ => false,
    }
}

proof fn lemma_declared_fields_alike(
    reg: Seq<TypeDescriptor>,
    fa: Seq<Field>,
    i: int,
    fb: Seq<Field>,
    j: int,
    handles: Set<int>,
)
    requires
        fields_declared_alike(fa, fb),
        fields_within(fa, handles),
        closed(reg, handles),
        !handles.contains(i),
        !handles.contains(j),
    ensures
        fields_alike(
            reg,
            fa,
            Set::<int>::empty().insert(i),
            fb,
            Set::<int>::empty().insert(j),
        ),
{
    let a_visited = Set::<int>::empty().insert(i);
    let b_visited = Set::<int>::empty().insert(j);
    assert forall|k: int| 0 <= k < fa.len() implies params_alike(
        reg,
        (#[trigger] fa[k]).ty.generic_params@,
        a_visited,
        fb[k].ty.generic_params@,
        b_visited,
    ) by {
        let params = fa[k].ty.generic_params@;
        assert forall|p: int| 0 <= p < params.len() implies type_hash(
            reg,
            params[p].0 as int,
            a_visited,
        ) == type_hash(reg, params[p].0 as int, b_visited) by {
            assert(handles.contains(fa[k].ty.generic_params@[p].0 as int));
            lemma_frame(reg, params[p].0 as int, a_visited, b_visited, handles);
        }
    }
}

/// Alias invariance of declarations: two registered types that are declared
/// alike have the same fingerprint, provided that neither of them can be
/// reached from their generic parameters. `handles` is what can be reached:
/// a closed set that holds every generic parameter of the two and neither of
/// the two themselves.
pub proof fn law_alias_invariance_of_declarations(
    reg: Seq<TypeDescriptor>,
    i: int,
    j: int,
    handles: Set<int>,
)
    requires
        0 <= i < reg.len(),
        0 <= j < reg.len(),
        declared_alike(reg[i], reg[j]),
        descriptor_within(reg[i], handles),
        closed(reg, handles),
        !handles.contains(i),
        !handles.contains(j),
    ensures
        shape_of(reg, i) == shape_of(reg, j),
        fingerprint(reg, i) == fingerprint(reg, j),
{
    let a_visited = Set::<int>::empty().insert(i);
    let b_visited = Set::<int>::empty().insert(j);
    match (reg[i], reg[j]) {
        (
            TypeDescriptor::Struct { name: na, fields: fa },
            TypeDescriptor::Struct { name: nb, fields: fb },
        ) => {
            lemma_declared_fields_alike(reg, fa@, i, fb@, j, handles);
        },
        (
            TypeDescriptor::Enum { name: na, variants: va },
            TypeDescriptor::Enum { name: nb, variants: vb },
        ) => {
            assert forall|v: int| 0 <= v < va@.len() implies match (
                (#[trigger] va@[v]).fields,
                vb@[v].fields,
            ) {
                (Some(fa), Some(fb)) => fields_alike(reg, fa@, a_visited, fb@, b_visited),
                (None, None) => true,
                _ => false,
            } by {
                match (va@[v].fields, vb@[v].fields) {
                    (Some(fa), Some(fb)) => {
                        lemma_declared_fields_alike(reg, fa@, i, fb@, j, handles);
                    },
                    _ => {},
                }
            }
        },
        _ => {},
    }
    law_blind_spot(reg, i, j);
}

} // verus!
