//! Which origins may send requests from a browser.

use vstd::prelude::*;

verus! {

/// The bytes of `http://localhost`.
pub open spec fn local_prefix() -> Seq<u8> {
    seq![
        104u8, 116u8, 116u8, 112u8,  // h t t p
        58u8, 47u8, 47u8,  // : / /
        108u8, 111u8, 99u8, 97u8, 108u8,  // l o c a l
        104u8, 111u8, 115u8, 116u8,  // h o s t
    ]
}

/// The bytes of `null`, the origin that a page opened from a file sends.
pub open spec fn null_origin() -> Seq<u8> {
    seq![110u8, 117u8, 108u8, 108u8]  // n u l l
}

/// `bytes` begins with `prefix`.
pub open spec fn begins_with(bytes: Seq<u8>, prefix: Seq<u8>) -> bool {
    &&& prefix.len() <= bytes.len()
    &&& forall|i: int| 0 <= i < prefix.len() ==> bytes[i] == prefix[i]
}

/// An origin is let in if it begins with `http://localhost` or is `null`.
pub open spec fn is_allowed_origin(origin: Seq<u8>) -> bool {
    begins_with(origin, local_prefix()) || origin == null_origin()
}

fn starts_with<const N: usize>(bytes: &[u8], prefix: &[u8; N]) -> (found: bool)
    ensures
        found == begins_with(bytes@, prefix@),
{
    if bytes.len() < N {
        return false;
    }
    let mut i: usize = 0;
    while i < N
        invariant
            i <= N,
            N <= bytes.len(),
            prefix@.len() == N,
            forall|j: int| 0 <= j < i ==> bytes@[j] == prefix@[j],
        decreases N - i,
    {
        if bytes[i] != prefix[i] {
            return false;
        }
        i += 1;
    }
    true
}

/// Whether a request that names `origin` as its origin is let in.
pub fn origin_allowed(origin: &[u8]) -> (allowed: bool)
    ensures
        allowed == is_allowed_origin(origin@),
{
    let local: [u8; 16] = [104, 116, 116, 112, 58, 47, 47, 108, 111, 99, 97, 108, 104, 111, 115, 116];
    let null: [u8; 4] = [110, 117, 108, 108];
    assert(local@ =~= local_prefix());
    assert(null@ =~= null_origin());
    if starts_with(origin, &local) {
        true
    } else if origin.len() == 4 {
        let same = starts_with(origin, &null);
        assert(same == (origin@ =~= null_origin()));
        same
    } else {
        false
    }
}

} // verus!
