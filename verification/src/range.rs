//! The range resolver: from a length setting to a concrete length.

use crate::draw::{lemma_floor_of_bounds, Draw};
use crate::source::{agree, ran, take, Rand};
use vstd::prelude::*;

verus! {

/// The setting in force: the given one, or the defaults as a range.
pub open spec fn bounds(
    range: Option<(u32, Option<u32>)>,
    default_min: u32,
    default_max: u32,
) -> (u32, Option<u32>) {
    match range {
        Some(given) => given,
        None => (default_min, Some(default_max)),
    }
}

/// How many draws resolving `range` takes: none for a fixed length, one
/// for a range, the default range included.
pub open spec fn reads(range: Option<(u32, Option<u32>)>) -> nat {
    match range {
        Some((_, None)) => 0,
        _ => 1,
    }
}

/// The point of the half-open range from `lo` to `hi` that the draw `d`
/// selects: `lo` plus the whole part of `d` times the width. An upper end
/// below `lo` counts as `lo`, so the width is never negative.
pub open spec fn spread_of(d: Draw, lo: u32, hi: u32) -> int {
    lo + d.floor_of(if hi > lo { hi - lo } else { 0 })
}

/// The length that `range` resolves to when the draw at position `from` of
/// `draws` is the one the resolver takes.
pub open spec fn count(
    range: Option<(u32, Option<u32>)>,
    default_min: u32,
    default_max: u32,
    draws: Seq<Draw>,
    from: int,
) -> int {
    match bounds(range, default_min, default_max) {
        (fixed, None) => fixed as int,
        (lo, Some(hi)) => spread_of(draws[from], lo, hi),
    }
}

/// Whether `n` is a length that `setting` allows: the fixed length where
/// the setting has no upper end; otherwise a length that is at least the
/// lower end, below the upper end if that lies above the lower one, and the
/// lower end itself if it does not.
pub open spec fn allows(setting: (u32, Option<u32>), n: int) -> bool {
    match setting {
        (fixed, None) => n == fixed,
        (lo, Some(hi)) => lo <= n && (lo < hi ==> n < hi) && (hi <= lo ==> n == lo),
    }
}

/// Whatever the draw, a resolved length is one that the setting in force
/// allows.
pub proof fn lemma_count_in_range(
    range: Option<(u32, Option<u32>)>,
    default_min: u32,
    default_max: u32,
    draws: Seq<Draw>,
    from: int,
)
    ensures
        allows(
            bounds(range, default_min, default_max),
            count(range, default_min, default_max, draws, from),
        ),
{
    match bounds(range, default_min, default_max) {
        (fixed, None) => {},
        (lo, Some(hi)) => {
            lemma_floor_of_bounds(
                draws[from],
                if hi > lo {
                    hi - lo
                } else {
                    0
                },
            );
        },
    }
}

/// Selects a point of the half-open range from `lo` to `hi` by the draw
/// `d`. The result is at least `lo`, is below `hi` whenever the range is
/// not empty, and is `lo` itself when it is.
pub fn spread(d: Draw, lo: u32, hi: u32) -> (n: u32)
    ensures
        n == spread_of(d, lo, hi),
        lo <= n,
        lo < hi ==> n < hi,
        hi <= lo ==> n == lo,
{
    let top = if hi > lo { hi } else { lo };
    lo + d.scale(top - lo)
}

/// Resolves a length setting, taking one draw from `rng` if and only if
/// the setting in force is a range.
///
/// `log` records the draws of the run so far, which began at `origin`; the
/// result carries the record with the resolver's draw appended.
pub(crate) fn util_range<R: Rand>(
    rng: &mut R,
    range: Option<(u32, Option<u32>)>,
    default_min: u32,
    default_max: u32,
    Ghost(origin): Ghost<R>,
    Ghost(log): Ghost<Seq<Draw>>,
) -> (out: (u32, Ghost<Seq<Draw>>))
    requires
        ran(origin, log, *old(rng)),
    ensures
        ran(origin, out.1@, *final(rng)),
        out.1@.len() == log.len() + reads(range),
        agree(log, out.1@, log.len() as int),
        out.0 == count(range, default_min, default_max, out.1@, log.len() as int),
        reads(range) == 0 ==> *final(rng) == *old(rng),
        allows(bounds(range, default_min, default_max), out.0 as int),
{
    let given = match range {
        Some(given) => given,
        None => (default_min, Some(default_max)),
    };
    match given {
        (fixed, None) => (fixed, Ghost(log)),
        (lo, Some(hi)) => {
            let d = take(rng, Ghost(origin), Ghost(log));
            (spread(d, lo, hi), Ghost(log.push(d)))
        },
    }
}

/// Resolves a length setting to a length, with `default_min` and
/// `default_max` as the range where `range` is absent.
///
/// A fixed length is returned as it is and leaves `rng` untouched. A range
/// takes exactly one draw, and the length is the point of the range that
/// the draw selects.
pub fn resolve<R: Rand>(
    rng: &mut R,
    range: Option<(u32, Option<u32>)>,
    default_min: u32,
    default_max: u32,
) -> (n: u32)
    ensures
        exists|draws: Seq<Draw>| #[trigger]
            ran(*old(rng), draws, *final(rng)) && draws.len() == reads(range) && n == count(
                range,
                default_min,
                default_max,
                draws,
                0,
            ),
        reads(range) == 0 ==> *final(rng) == *old(rng),
        allows(bounds(range, default_min, default_max), n as int),
{
    let ghost origin = *rng;
    let (n, Ghost(draws)) = util_range(
        rng,
        range,
        default_min,
        default_max,
        Ghost(origin),
        Ghost(Seq::empty()),
    );
    n
}

} // verus!
