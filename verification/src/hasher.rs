//! The streaming hasher behind every fingerprint.
//!
//! `near_stable_hasher::StableHasher` is SipHash 2-4 under a fixed key. Verus
//! does not see inside it: this module says what is assumed of it, and builds
//! the two token writers of the fingerprint on top.

use near_stable_hasher::StableHasher;
use std::hash::Hasher;
use vstd::bytes::{spec_u32_to_le_bytes, u32_to_le_bytes};
use vstd::prelude::*;

verus! {

#[verifier::external_type_specification]
#[verifier::external_body]
pub struct ExStableHasher(StableHasher);

/// The bytes that a hasher has been fed since it was made, in the order of
/// the writes.
pub uninterp spec fn written(hasher: StableHasher) -> Seq<u8>;

/// The 64-bit SipHash 2-4 digest, under the all-zero key, of a byte string.
pub uninterp spec fn sip_digest(input: Seq<u8>) -> u64;

/// Calls `StableHasher::new`. Assumed: a new hasher has been fed nothing.
#[verifier::external_body]
pub(crate) fn hasher_new() -> (hasher: StableHasher)
    ensures
        written(hasher) == Seq::<u8>::empty(),
{
    StableHasher::new()
}

/// Calls `Hasher::write` on a `StableHasher`. Assumed: the bytes are
/// appended to what the hasher was fed before.
#[verifier::external_body]
pub(crate) fn hasher_write(hasher: &mut StableHasher, bytes: &[u8])
    ensures
        written(*final(hasher)) == written(*old(hasher)) + bytes@,
{
    hasher.write(bytes)
}

/// Calls `Hasher::finish` on a `StableHasher`. Assumed: the result is the
/// digest of everything the hasher was fed, and depends on nothing but the
/// concatenation of those bytes.
#[verifier::external_body]
pub(crate) fn hasher_finish(hasher: &StableHasher) -> (digest: u64)
    ensures
        digest == sip_digest(written(*hasher)),
{
    hasher.finish()
}

/// The 32-bit fingerprint that a 64-bit digest is cut down to: its low half.
pub open spec fn low_half(digest: u64) -> u32 {
    (digest % 0x1_0000_0000) as u32
}

/// Cuts a digest down to a fingerprint.
pub fn fold_digest(digest: u64) -> (hash: u32)
    ensures
        hash == low_half(digest),
{
    (digest % 0x1_0000_0000) as u32
}

/// The byte that closes every string token. No UTF-8 encoding contains it,
/// so a string token is never a proper prefix of another.
pub const STR_END: u8 = 0xff;

/// What one string contributes to the hashed stream: its UTF-8 bytes, then
/// `STR_END`.
pub open spec fn str_token(s: Seq<char>) -> Seq<u8> {
    vstd::utf8::encode_utf8(s).push(STR_END)
}

/// Feeds one string token to the hasher.
pub fn write_str(hasher: &mut StableHasher, s: &str)
    ensures
        written(*final(hasher)) == written(*old(hasher)) + str_token(s@),
{
    hasher_write(hasher, s.as_bytes());
    let end: [u8; 1] = [STR_END];
    hasher_write(hasher, end.as_slice());
    assert(written(*hasher) =~= written(*old(hasher)) + str_token(s@));
}

/// No byte of the UTF-8 encoding of one character is `STR_END`.
proof fn lemma_scalar_has_no_end(c: u32)
    ensures
        forall|i: int|
            0 <= i < vstd::utf8::encode_scalar(c).len() ==> vstd::utf8::encode_scalar(c)[i]
                != STR_END,
{
    assert((c & 0x7F) as u8 != 0xffu8) by (bit_vector);
    assert(0xC0u8 | ((c >> 6) & 0x1F) as u8 != 0xffu8) by (bit_vector);
    assert(0xE0u8 | ((c >> 12) & 0x0F) as u8 != 0xffu8) by (bit_vector);
    assert(0xF0u8 | ((c >> 18) & 0x7) as u8 != 0xffu8) by (bit_vector);
    assert(0x80u8 | (c & 0x3F) as u8 != 0xffu8) by (bit_vector);
    assert(0x80u8 | ((c >> 6) & 0x3F) as u8 != 0xffu8) by (bit_vector);
    assert(0x80u8 | ((c >> 12) & 0x3F) as u8 != 0xffu8) by (bit_vector);
}

/// No byte of a UTF-8 encoding is `STR_END`.
pub proof fn lemma_utf8_has_no_end(s: Seq<char>)
    ensures
        forall|i: int|
            0 <= i < vstd::utf8::encode_utf8(s).len() ==> vstd::utf8::encode_utf8(s)[i] != STR_END,
    decreases s.len(),
{
    if s.len() > 0 {
        let first = vstd::utf8::encode_scalar(s[0] as u32);
        let rest = vstd::utf8::encode_utf8(s.drop_first());
        lemma_scalar_has_no_end(s[0] as u32);
        lemma_utf8_has_no_end(s.drop_first());
        assert forall|i: int| 0 <= i < (first + rest).len() implies (first + rest)[i]
            != STR_END by {
            if i >= first.len() {
                assert((first + rest)[i] == rest[i - first.len()]);
            }
        }
    }
}

/// A string token can be read off the front of a stream in one way only:
/// two streams that are equal and each begin with a string token begin with
/// the same string, and go on alike.
pub proof fn lemma_str_token_cancel(a: Seq<char>, x: Seq<u8>, b: Seq<char>, y: Seq<u8>)
    requires
        str_token(a) + x == str_token(b) + y,
    ensures
        a == b,
        x == y,
{
    let ea = vstd::utf8::encode_utf8(a);
    let eb = vstd::utf8::encode_utf8(b);
    let s = str_token(a) + x;
    let t = str_token(b) + y;
    lemma_utf8_has_no_end(a);
    lemma_utf8_has_no_end(b);
    assert(s[ea.len() as int] == STR_END);
    assert(t[eb.len() as int] == STR_END);
    if ea.len() < eb.len() {
        assert(t[ea.len() as int] == eb[ea.len() as int]);
    }
    if eb.len() < ea.len() {
        assert(s[eb.len() as int] == ea[eb.len() as int]);
    }
    assert(ea =~= eb) by {
        assert forall|i: int| 0 <= i < ea.len() implies ea[i] == eb[i] by {
            assert(s[i] == ea[i]);
            assert(t[i] == eb[i]);
        }
    }
    vstd::utf8::encode_utf8_decode_utf8(a);
    vstd::utf8::encode_utf8_decode_utf8(b);
    assert(x =~= y) by {
        assert(s.len() == ea.len() + 1 + x.len());
        assert(t.len() == eb.len() + 1 + y.len());
        assert forall|i: int| 0 <= i < x.len() implies x[i] == y[i] by {
            assert(s[ea.len() + 1 + i] == x[i]);
            assert(t[eb.len() + 1 + i] == y[i]);
        }
    }
}

/// What one resolved hash contributes to the hashed stream: its four bytes,
/// least significant first.
pub open spec fn word_token(word: u32) -> Seq<u8> {
    spec_u32_to_le_bytes(word)
}

/// Feeds one hash token to the hasher.
pub fn write_word(hasher: &mut StableHasher, word: u32)
    ensures
        written(*final(hasher)) == written(*old(hasher)) + word_token(word),
{
    let bytes = u32_to_le_bytes(word);
    hasher_write(hasher, bytes.as_slice());
}

/// A hash token is four bytes long, and two hashes with the same token are
/// the same hash.
pub proof fn lemma_word_token(a: u32, b: u32)
    ensures
        word_token(a).len() == 4,
        word_token(a) == word_token(b) ==> a == b,
{
    vstd::bytes::lemma_auto_spec_u32_to_from_le_bytes();
    assert(spec_u32_to_le_bytes(a).len() == 4);
    assert(spec_u32_to_le_bytes(b).len() == 4);
}

} // verus!
