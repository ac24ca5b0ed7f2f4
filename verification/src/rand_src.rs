use vstd::prelude::*;
use vstd::arithmetic::power::pow;
use crate::bigint::{Bigint, bi_min_bytes, min_bytes, lemma_le_val_len_upper};
use crate::group::UnknownOrderGroup;

verus! {

/// Relies on rand_core::OsRng::fill_bytes: fills the buffer from the
/// operating system's entropy source; nothing is promised of the contents.
#[verifier::external_body]
pub fn random_bytes(len: usize) -> (r: Vec<u8>)
    ensures
        r@.len() == len,
{
    let mut buf = vec![0u8; len];
    rand_core::RngCore::fill_bytes(&mut rand_core::OsRng, &mut buf);
    buf
}

/// A fresh non-negative integer with as many random digits as the bound
/// has digits: below the power of 256 at the bound's digit count.
pub fn random_bound(upper: &Bigint) -> (r: Bigint)
    requires
        upper@ >= 0,
    ensures
        r.wf(),
        r@ >= 0,
        r@ < pow(256, min_bytes(upper@).len()),
{
    let size = bi_min_bytes(upper).len();
    let bytes = random_bytes(size);
    let out = Bigint::from_bytes_le(bytes);
    proof {
        lemma_le_val_len_upper(out.mag@);
    }
    out
}

/// Fresh randomness on the scale of the group's order bound.
pub fn random_order<G: UnknownOrderGroup>() -> (r: Bigint)
    ensures
        r.wf(),
        r@ >= 0,
{
    let upper = G::order_upper_bound();
    random_bound(&upper)
}

} // verus!
