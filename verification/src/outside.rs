//! The calls into outside crates, each behind a trusted item.
use vstd::prelude::*;
use bracket_pathfinding::prelude::{BresenhamInclusive, Point};
use rand::rngs::SmallRng;
use rand::{Rng, SeedableRng};

verus! {

pub open spec fn abs_diff(a: i32, b: i32) -> int {
    if a >= b { a - b } else { b - a }
}

/// How many tiles an inclusive line from `start` to `end` visits: one more
/// than the larger of the two coordinate distances.
pub open spec fn line_length(start: (i32, i32), end: (i32, i32)) -> int {
    let dx = abs_diff(start.0, end.0);
    let dy = abs_diff(start.1, end.1);
    (if dx >= dy { dx } else { dy }) + 1
}

/// The tiles that bracket-geometry's `BresenhamInclusive` visits from `start`
/// to `end`.
pub uninterp spec fn bresenham_line(start: (i32, i32), end: (i32, i32)) -> Seq<(i32, i32)>;

/// Calls `BresenhamInclusive::new(start, end)` and collects the tiles it
/// yields. The iterator steps once per unit of the longer axis, from the
/// start through the end, so it yields one tile more than the larger
/// coordinate distance. Which tiles it picks is left to the name
/// `bresenham_line`. The coordinates are bounded so that the differences the
/// iterator computes do not overflow.
#[verifier::external_body]
pub(crate) fn bresenham_points(start: (i32, i32), end: (i32, i32)) -> (pts: Vec<(i32, i32)>)
    requires
        -0x2000_0000 <= start.0 <= 0x2000_0000,
        -0x2000_0000 <= start.1 <= 0x2000_0000,
        -0x2000_0000 <= end.0 <= 0x2000_0000,
        -0x2000_0000 <= end.1 <= 0x2000_0000,
    ensures
        pts@ == bresenham_line(start, end),
        pts@.len() == line_length(start, end),
{
    BresenhamInclusive::new(Point::new(start.0, start.1), Point::new(end.0, end.1)).map(|p| (p.x, p.y)).collect()
}

#[verifier::external_type_specification]
#[verifier::external_body]
pub struct ExSmallRng(SmallRng);

/// Calls `SmallRng::seed_from_u64`. The generator's state is opaque here.
#[verifier::external_body]
pub(crate) fn seeded_rng(seed: u64) -> SmallRng {
    SmallRng::seed_from_u64(seed)
}

/// Calls `Rng::gen_ratio(numerator, denominator)`: true with probability
/// `numerator / denominator`. rand's source makes the ratio 1 always true and
/// the ratio 0 always false; of any other draw nothing is claimed. It panics
/// when the denominator is 0 or smaller than the numerator, which `requires`
/// rules out.
#[verifier::external_body]
pub(crate) fn chance(rng: &mut SmallRng, numerator: u32, denominator: u32) -> (b: bool)
    requires
        0 < denominator,
        numerator <= denominator,
    ensures
        numerator == 0 ==> !b,
        numerator == denominator ==> b,
{
    rng.gen_ratio(numerator, denominator)
}

/// Calls `Rng::gen_range(low..high)`: a number drawn from `low` up to, but
/// not including, `high`. rand's source asserts that the range is not
/// empty, which `requires` guarantees; which number comes out is not
/// claimed.
#[verifier::external_body]
pub(crate) fn draw_in_range(rng: &mut SmallRng, low: i32, high: i32) -> (n: i32)
    requires
        low < high,
    ensures
        low <= n < high,
{
    rng.gen_range(low..high)
}

} // verus!
