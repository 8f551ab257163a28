//! What is hashed: the resolved shape of a type and its encoding as bytes.
//!
//! A shape holds the names of a descriptor and, in place of each generic
//! parameter, the hash that the parameter resolved to. Handles do not occur
//! in it. The fingerprint of a type is the digest of its encoded shape.

use crate::hasher::{
    lemma_str_token_cancel, lemma_word_token, low_half, sip_digest, str_token, word_token,
};
use vstd::prelude::*;

verus! {

/// A field as it is hashed: two names and one hash for each generic
/// parameter.
#[verifier::ext_equal]
pub struct FieldShape {
    pub name: Seq<char>,
    pub declared_name: Seq<char>,
    pub params: Seq<u32>,
}

/// A variant as it is hashed.
#[verifier::ext_equal]
pub struct VariantShape {
    pub name: Seq<char>,
    pub fields: Option<Seq<FieldShape>>,
}

/// A type as it is hashed.
#[verifier::ext_equal]
pub enum TypeShape {
    Struct { name: Seq<char>, fields: Seq<FieldShape> },
    Enum { name: Seq<char>, variants: Seq<VariantShape> },
}

/// The tokens of a run of resolved hashes, in order.
pub open spec fn encode_words(words: Seq<u32>) -> Seq<u8>
    decreases words.len(),
{
    if words.len() == 0 {
        Seq::empty()
    } else {
        encode_words(words.drop_last()) + word_token(words.last())
    }
}

/// A field's name, then its declared type's name, then its parameters.
pub open spec fn encode_field(field: FieldShape) -> Seq<u8> {
    str_token(field.name) + str_token(field.declared_name) + encode_words(field.params)
}

/// The fields one after the other, in declared order.
pub open spec fn encode_fields(fields: Seq<FieldShape>) -> Seq<u8>
    decreases fields.len(),
{
    if fields.len() == 0 {
        Seq::empty()
    } else {
        encode_fields(fields.drop_last()) + encode_field(fields.last())
    }
}

/// A variant's name, then its fields if it carries any. A variant without
/// fields and one with an empty list of fields encode alike.
pub open spec fn encode_variant(variant: VariantShape) -> Seq<u8> {
    str_token(variant.name) + match variant.fields {
        Some(fields) => encode_fields(fields),
        None => Seq::empty(),
    }
}

/// The variants one after the other, in declared order.
pub open spec fn encode_variants(variants: Seq<VariantShape>) -> Seq<u8>
    decreases variants.len(),
{
    if variants.len() == 0 {
        Seq::empty()
    } else {
        encode_variants(variants.drop_last()) + encode_variant(variants.last())
    }
}

/// The whole stream of one type: the tag of its kind, its name, then its
/// fields or variants.
pub open spec fn encode_type(shape: TypeShape) -> Seq<u8> {
    match shape {
        TypeShape::Struct { name, fields } => str_token("struct"@) + str_token(name)
            + encode_fields(fields),
        TypeShape::Enum { name, variants } => str_token("enum"@) + str_token(name)
            + encode_variants(variants),
    }
}

/// The 32-bit fingerprint of a byte stream: the low half of its digest.
pub open spec fn digest32(stream: Seq<u8>) -> u32 {
    low_half(sip_digest(stream))
}

/// Two runs of fields are laid out alike: as many fields, and field by field
/// as many generic parameters.
pub open spec fn same_layout_fields(a: Seq<FieldShape>, b: Seq<FieldShape>) -> bool {
    &&& a.len() == b.len()
    &&& forall|k: int| 0 <= k < a.len() ==> (#[trigger] a[k]).params.len() == b[k].params.len()
}

/// Two variants are laid out alike: both carry fields or neither does, and
/// the fields are laid out alike.
pub open spec fn same_layout_variant(a: VariantShape, b: VariantShape) -> bool {
    match (a.fields, b.fields) {
        (Some(fa), Some(fb)) => same_layout_fields(fa, fb),
        (None, None) => true,
        _ => false,
    }
}

/// Two runs of variants are laid out alike.
pub open spec fn same_layout_variants(a: Seq<VariantShape>, b: Seq<VariantShape>) -> bool {
    &&& a.len() == b.len()
    &&& forall|k: int| 0 <= k < a.len() ==> same_layout_variant(#[trigger] a[k], b[k])
}

/// Two shapes are laid out alike: the same kind, and the same number of
/// pieces at every level. Names and hashes are free to differ.
pub open spec fn same_layout(a: TypeShape, b: TypeShape) -> bool {
    match (a, b) {
        (TypeShape::Struct { fields: fa, .. }, TypeShape::Struct { fields: fb, .. }) => {
            same_layout_fields(fa, fb)
        },
        (TypeShape::Enum { variants: va, .. }, TypeShape::Enum { variants: vb, .. }) => {
            same_layout_variants(va, vb)
        },
        _ => false,
    }
}

proof fn lemma_encode_words_len(words: Seq<u32>)
    ensures
        encode_words(words).len() == 4 * words.len(),
    decreases words.len(),
{
    if words.len() > 0 {
        lemma_encode_words_len(words.drop_last());
        lemma_word_token(words.last(), words.last());
    }
}

proof fn lemma_encode_words_injective(a: Seq<u32>, b: Seq<u32>)
    requires
        a.len() == b.len(),
        encode_words(a) == encode_words(b),
    ensures
        a == b,
    decreases a.len(),
{
    if a.len() > 0 {
        let pa = encode_words(a.drop_last());
        let pb = encode_words(b.drop_last());
        let ta = word_token(a.last());
        let tb = word_token(b.last());
        lemma_encode_words_len(a.drop_last());
        lemma_encode_words_len(b.drop_last());
        lemma_word_token(a.last(), b.last());
        assert(pa =~= (pa + ta).subrange(0, pa.len() as int));
        assert(pb =~= (pb + tb).subrange(0, pb.len() as int));
        assert(ta =~= (pa + ta).subrange(pa.len() as int, (pa + ta).len() as int));
        assert(tb =~= (pb + tb).subrange(pb.len() as int, (pb + tb).len() as int));
        lemma_encode_words_injective(a.drop_last(), b.drop_last());
        assert(a =~= a.drop_last().push(a.last()));
        assert(b =~= b.drop_last().push(b.last()));
    } else {
        assert(a =~= b);
    }
}

/// As many hash tokens can be read off the front of a stream in one way only.
proof fn lemma_encode_words_cancel(a: Seq<u32>, x: Seq<u8>, b: Seq<u32>, y: Seq<u8>)
    requires
        a.len() == b.len(),
        encode_words(a) + x == encode_words(b) + y,
    ensures
        a == b,
        x == y,
{
    let ea = encode_words(a);
    let eb = encode_words(b);
    lemma_encode_words_len(a);
    lemma_encode_words_len(b);
    assert(ea =~= (ea + x).subrange(0, ea.len() as int));
    assert(eb =~= (eb + y).subrange(0, eb.len() as int));
    assert(x =~= (ea + x).subrange(ea.len() as int, (ea + x).len() as int));
    assert(y =~= (eb + y).subrange(eb.len() as int, (eb + y).len() as int));
    lemma_encode_words_injective(a, b);
}

/// A field can be read off the front of a stream in one way only, once the
/// number of its generic parameters is known.
proof fn lemma_encode_field_cancel(f: FieldShape, x: Seq<u8>, g: FieldShape, y: Seq<u8>)
    requires
        f.params.len() == g.params.len(),
        encode_field(f) + x == encode_field(g) + y,
    ensures
        f == g,
        x == y,
{
    let f_rest = str_token(f.declared_name) + (encode_words(f.params) + x);
    let g_rest = str_token(g.declared_name) + (encode_words(g.params) + y);
    assert(encode_field(f) + x =~= str_token(f.name) + f_rest);
    assert(encode_field(g) + y =~= str_token(g.name) + g_rest);
    lemma_str_token_cancel(f.name, f_rest, g.name, g_rest);
    lemma_str_token_cancel(
        f.declared_name,
        encode_words(f.params) + x,
        g.declared_name,
        encode_words(g.params) + y,
    );
    lemma_encode_words_cancel(f.params, x, g.params, y);
    assert(f =~= g);
}

proof fn lemma_encode_fields_front(fields: Seq<FieldShape>)
    requires
        fields.len() > 0,
    ensures
        encode_fields(fields) == encode_field(fields[0]) + encode_fields(fields.drop_first()),
    decreases fields.len(),
{
    if fields.len() == 1 {
        assert(fields.drop_last() =~= Seq::<FieldShape>::empty());
        assert(fields.drop_first() =~= Seq::<FieldShape>::empty());
        assert(encode_fields(fields) =~= encode_field(fields[0]) + encode_fields(
            fields.drop_first(),
        ));
    } else {
        lemma_encode_fields_front(fields.drop_last());
        assert(fields.drop_last().drop_first() =~= fields.drop_first().drop_last());
        assert(encode_fields(fields) =~= encode_field(fields[0]) + encode_fields(
            fields.drop_first(),
        ));
    }
}

/// A run of fields of a known layout can be read off the front of a stream
/// in one way only.
proof fn lemma_encode_fields_cancel(
    a: Seq<FieldShape>,
    x: Seq<u8>,
    b: Seq<FieldShape>,
    y: Seq<u8>,
)
    requires
        same_layout_fields(a, b),
        encode_fields(a) + x == encode_fields(b) + y,
    ensures
        a == b,
        x == y,
    decreases a.len(),
{
    if a.len() == 0 {
        assert(a =~= b);
        assert(x =~= encode_fields(a) + x);
        assert(y =~= encode_fields(b) + y);
    } else {
        lemma_encode_fields_front(a);
        lemma_encode_fields_front(b);
        let ra = a.drop_first();
        let rb = b.drop_first();
        assert(encode_fields(a) + x =~= encode_field(a[0]) + (encode_fields(ra) + x));
        assert(encode_fields(b) + y =~= encode_field(b[0]) + (encode_fields(rb) + y));
        lemma_encode_field_cancel(a[0], encode_fields(ra) + x, b[0], encode_fields(rb) + y);
        assert(same_layout_fields(ra, rb)) by {
            assert forall|k: int| 0 <= k < ra.len() implies (#[trigger] ra[k]).params.len()
                == rb[k].params.len() by {
                assert(ra[k] == a[k + 1]);
                assert(rb[k] == b[k + 1]);
            }
        }
        lemma_encode_fields_cancel(ra, x, rb, y);
        assert(a =~= seq![a[0]] + ra);
        assert(b =~= seq![b[0]] + rb);
    }
}

/// A variant of a known layout can be read off the front of a stream in one
/// way only.
proof fn lemma_encode_variant_cancel(v: VariantShape, x: Seq<u8>, w: VariantShape, y: Seq<u8>)
    requires
        same_layout_variant(v, w),
        encode_variant(v) + x == encode_variant(w) + y,
    ensures
        v == w,
        x == y,
{
    match (v.fields, w.fields) {
        (Some(fv), Some(fw)) => {
            assert(encode_variant(v) + x =~= str_token(v.name) + (encode_fields(fv) + x));
            assert(encode_variant(w) + y =~= str_token(w.name) + (encode_fields(fw) + y));
            lemma_str_token_cancel(v.name, encode_fields(fv) + x, w.name, encode_fields(fw) + y);
            lemma_encode_fields_cancel(fv, x, fw, y);
        },
        _ => {
            assert(encode_variant(v) + x =~= str_token(v.name) + x);
            assert(encode_variant(w) + y =~= str_token(w.name) + y);
            lemma_str_token_cancel(v.name, x, w.name, y);
        },
    }
    assert(v =~= w);
}

proof fn lemma_encode_variants_front(variants: Seq<VariantShape>)
    requires
        variants.len() > 0,
    ensures
        encode_variants(variants) == encode_variant(variants[0]) + encode_variants(
            variants.drop_first(),
        ),
    decreases variants.len(),
{
    if variants.len() == 1 {
        assert(variants.drop_last() =~= Seq::<VariantShape>::empty());
        assert(variants.drop_first() =~= Seq::<VariantShape>::empty());
        assert(encode_variants(variants) =~= encode_variant(variants[0]) + encode_variants(
            variants.drop_first(),
        ));
    } else {
        lemma_encode_variants_front(variants.drop_last());
        assert(variants.drop_last().drop_first() =~= variants.drop_first().drop_last());
        assert(encode_variants(variants) =~= encode_variant(variants[0]) + encode_variants(
            variants.drop_first(),
        ));
    }
}

proof fn lemma_encode_variants_injective(a: Seq<VariantShape>, b: Seq<VariantShape>)
    requires
        same_layout_variants(a, b),
        encode_variants(a) == encode_variants(b),
    ensures
        a == b,
    decreases a.len(),
{
    if a.len() == 0 {
        assert(a =~= b);
    } else {
        lemma_encode_variants_front(a);
        lemma_encode_variants_front(b);
        let ra = a.drop_first();
        let rb = b.drop_first();
        lemma_encode_variant_cancel(a[0], encode_variants(ra), b[0], encode_variants(rb));
        assert(same_layout_variants(ra, rb)) by {
            assert forall|k: int| 0 <= k < ra.len() implies same_layout_variant(
                #[trigger] ra[k],
                rb[k],
            ) by {
                assert(ra[k] == a[k + 1]);
                assert(rb[k] == b[k + 1]);
            }
        }
        lemma_encode_variants_injective(ra, rb);
        assert(a =~= seq![a[0]] + ra);
        assert(b =~= seq![b[0]] + rb);
    }
}

/// The stream of a struct is never the stream of an enum: they part within
/// the tag.
pub proof fn lemma_kinds_encode_apart(a: TypeShape, b: TypeShape)
    requires
        a is Struct,
        b is Enum,
    ensures
        encode_type(a) != encode_type(b),
{
    let rest_a = str_token(a->Struct_name) + encode_fields(a->fields);
    let rest_b = str_token(b->Enum_name) + encode_variants(b->variants);
    assert(encode_type(a) =~= str_token("struct"@) + rest_a);
    assert(encode_type(b) =~= str_token("enum"@) + rest_b);
    if encode_type(a) == encode_type(b) {
        lemma_str_token_cancel("struct"@, rest_a, "enum"@, rest_b);
        reveal_strlit("struct");
        reveal_strlit("enum");
        assert("struct"@.len() != "enum"@.len());
    }
}

/// Among shapes that are laid out alike the encoding loses nothing: two of
/// them with the same stream are the same shape.
pub proof fn lemma_encode_type_injective(a: TypeShape, b: TypeShape)
    requires
        same_layout(a, b),
        encode_type(a) == encode_type(b),
    ensures
        a == b,
{
    match (a, b) {
        (
            TypeShape::Struct { name: na, fields: fa },
            TypeShape::Struct { name: nb, fields: fb },
        ) => {
            assert(encode_type(a) =~= str_token("struct"@) + (str_token(na) + encode_fields(fa)));
            assert(encode_type(b) =~= str_token("struct"@) + (str_token(nb) + encode_fields(fb)));
            lemma_str_token_cancel(
                "struct"@,
                str_token(na) + encode_fields(fa),
                "struct"@,
                str_token(nb) + encode_fields(fb),
            );
            lemma_str_token_cancel(na, encode_fields(fa), nb, encode_fields(fb));
            assert(encode_fields(fa) + Seq::<u8>::empty() =~= encode_fields(fa));
            assert(encode_fields(fb) + Seq::<u8>::empty() =~= encode_fields(fb));
            lemma_encode_fields_cancel(fa, Seq::empty(), fb, Seq::empty());
        },
        (
            TypeShape::Enum { name: na, variants: va },
            TypeShape::Enum { name: nb, variants: vb },
        ) => {
            assert(encode_type(a) =~= str_token("enum"@) + (str_token(na) + encode_variants(va)));
            assert(encode_type(b) =~= str_token("enum"@) + (str_token(nb) + encode_variants(vb)));
            lemma_str_token_cancel(
                "enum"@,
                str_token(na) + encode_variants(va),
                "enum"@,
                str_token(nb) + encode_variants(vb),
            );
            lemma_str_token_cancel(na, encode_variants(va), nb, encode_variants(vb));
            lemma_encode_variants_injective(va, vb);
        },
        _ => {},
    }
}

} // verus!
