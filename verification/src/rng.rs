use vstd::prelude::*;

verus! {

/// `rand::rngs::StdRng` as an opaque type, so that verified code can hold a
/// seeded generator and thread it through the drawing functions.
#[verifier::external_type_specification]
#[verifier::external_body]
pub struct ExStdRng(rand::rngs::StdRng);

/// Relies on `rand::Rng::gen_range` over the inclusive range `lo..=hi`: the
/// draw lies inside the range, and the call panics only on an empty range,
/// which the precondition rules out. Nothing more is assumed: two calls on
/// equal arguments may differ.
#[verifier::external_body]
pub(crate) fn rand_in_range(rng: &mut rand::rngs::StdRng, lo: i64, hi: i64) -> (r: i64)
    requires
        lo <= hi,
    ensures
        lo <= r <= hi,
{
    rand::Rng::gen_range(rng, lo..=hi)
}

} // verus!
