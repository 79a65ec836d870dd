//! The digest function that the tree is built on, as contracts see it.

use vstd::prelude::*;

verus! {

/// Number of bytes in every digest.
pub const DIGEST_LEN: usize = 32;

/// The SHA-256 digest of `data`.
///
/// Verus knows nothing of this function but that it is one: equal inputs
/// have equal digests. What it is on any given input is computed by the
/// `sha2` crate alone.
pub uninterp spec fn sha256(data: Seq<u8>) -> Seq<u8>;

/// The digest of two byte strings laid end to end, `left` first, with
/// nothing between them.
pub open spec fn hash_pair(left: Seq<u8>, right: Seq<u8>) -> Seq<u8> {
    sha256(left + right)
}

/// Every member of `level` has the length of a digest.
pub open spec fn all_digests(level: Seq<Seq<u8>>) -> bool {
    forall|i: int| 0 <= i < level.len() ==> (#[trigger] level[i]).len() == DIGEST_LEN
}

/// Two levels laid end to end hold digests only where each of them does.
pub proof fn lemma_all_digests_concat(upper: Seq<Seq<u8>>, lower: Seq<Seq<u8>>)
    ensures
        all_digests(upper + lower) <==> all_digests(upper) && all_digests(lower),
{
    let whole = upper + lower;
    if all_digests(whole) {
        assert forall|i: int| 0 <= i < upper.len() implies (#[trigger] upper[i]).len()
            == DIGEST_LEN by {
            assert(whole[i] == upper[i]);
        }
        assert forall|i: int| 0 <= i < lower.len() implies (#[trigger] lower[i]).len()
            == DIGEST_LEN by {
            assert(whole[upper.len() + i] == lower[i]);
        }
    }
}

/// Two different inputs with one digest.
pub open spec fn collide(x: Seq<u8>, y: Seq<u8>) -> bool {
    x != y && sha256(x) == sha256(y)
}

} // verus!
