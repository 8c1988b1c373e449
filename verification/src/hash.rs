//! Name hashing: the identity a resource's key carries.
use vstd::prelude::*;
use vstd::string::StringSliceAdditionalSpecFns;

verus! {

/// The FNV-1a 64-bit offset basis.
pub const FNV_OFFSET_BASIS: u64 = 0xcbf2_9ce4_8422_2325;

/// The FNV-1a 64-bit prime.
pub const FNV_PRIME: u64 = 0x0000_0100_0000_01b3;

/// The FNV-1a 64-bit hash of a byte string: starting from the offset basis,
/// each byte in turn is xor-ed in and the state multiplied by the prime,
/// wrapping around at 2^64.
pub open spec fn fnv1a(bytes: Seq<u8>) -> u64
    decreases bytes.len(),
{
    if bytes.len() == 0 {
        FNV_OFFSET_BASIS
    } else {
        (fnv1a(bytes.drop_last()) ^ (bytes.last() as u64)).wrapping_mul(FNV_PRIME)
    }
}

/// The FNV-1a state reached from `h` after folding in `bytes`, in order.
pub open spec fn fnv1a_from(h: u64, bytes: Seq<u8>) -> u64
    decreases bytes.len(),
{
    if bytes.len() == 0 {
        h
    } else {
        (fnv1a_from(h, bytes.drop_last()) ^ (bytes.last() as u64)).wrapping_mul(FNV_PRIME)
    }
}

/// The hash of the empty name is the offset basis, and the hash of a
/// concatenation `s + t` continues from the hash of `s`, folding in the
/// bytes of `t` in order: each byte is xor-ed in before the multiplication.
pub proof fn lemma_fnv1a_continues(s: Seq<u8>, t: Seq<u8>)
    ensures
        fnv1a(Seq::empty()) == FNV_OFFSET_BASIS,
        fnv1a(s + t) == fnv1a_from(fnv1a(s), t),
    decreases t.len(),
{
    if t.len() == 0 {
        assert(s + t =~= s);
    } else {
        lemma_fnv1a_continues(s, t.drop_last());
        assert((s + t).drop_last() =~= s + t.drop_last());
        assert((s + t).last() == t.last());
    }
}

/// FNV-1a 64-bit hash of a type's name (of its UTF-8 bytes). Identical names
/// always hash identically, which is what lets two identities be compared
/// with a single `==` on a `u64`.
pub fn hash_name(name: &str) -> (hash: u64)
    ensures
        hash == fnv1a(name.spec_bytes()),
{
    let bytes = name.as_bytes();
    let mut hash: u64 = FNV_OFFSET_BASIS;
    let mut i: usize = 0;
    while i < bytes.len()
        invariant
            i <= bytes@.len(),
            bytes@ == name.spec_bytes(),
            hash == fnv1a(bytes@.take(i as int)),
        decreases bytes@.len() - i,
    {
        assert(bytes@.take(i + 1).drop_last() =~= bytes@.take(i as int));
        hash = (hash ^ (bytes[i] as u64)).wrapping_mul(FNV_PRIME);
        i = i + 1;
    }
    assert(bytes@.take(i as int) =~= bytes@);
    hash
}

} // verus!
