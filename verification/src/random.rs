//! Random draws for the selection engine. A generator value is threaded
//! through explicitly, so callers (and tests) control seeding; all draws go
//! through the trusted wrappers here.

use vstd::prelude::*;

verus! {

/// rand's seedable standard generator, declared so that verified code can
/// hold one and pass it along.
#[verifier::external_type_specification]
#[verifier::external_body]
pub struct ExStdRng(rand::rngs::StdRng);

/// Relies on `rand::Rng::gen_range` over `0..n`: the draw lies in the
/// half-open range, so below `n`. Nothing more is assumed of a random draw.
#[verifier::external_body]
pub fn rand_below(rng: &mut rand::rngs::StdRng, n: usize) -> (r: usize)
    requires
        n > 0,
    ensures
        r < n,
{
    rand::Rng::gen_range(rng, 0..n)
}

/// Relies on `rand::Rng::gen_range` over `lo..=hi`: the draw lies in the
/// inclusive range. Nothing more is assumed of a random draw.
#[verifier::external_body]
pub fn rand_char_between(rng: &mut rand::rngs::StdRng, lo: char, hi: char) -> (r: char)
    requires
        lo <= hi,
    ensures
        lo <= r <= hi,
{
    rand::Rng::gen_range(rng, lo..=hi)
}

} // verus!
