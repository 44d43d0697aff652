//! Random sources, and what it means for a sequence of draws to have come
//! from one.

use crate::draw::Draw;
use vstd::prelude::*;

verus! {

/// A source of draws, supplied by the caller.
///
/// The generators never construct or seed a source; they only ask it for
/// the next draw. A source may describe itself through `yields`, and is
/// then held to it. One that does not is taken to be able to hand out
/// anything, and `next` has nothing to keep.
pub trait Rand {
    /// Whether this source, as it stands, may hand out `d` next and then go
    /// on as `after`.
    open spec fn yields(&self, d: Draw, after: &Self) -> bool {
        true
    }

    /// The next draw.
    fn next(&mut self) -> (d: Draw)
        ensures
            old(self).yields(d, final(self)),
    ;
}

/// Whether `a` and `b` hold the same draws at every position below `upto`.
pub open spec fn agree(a: Seq<Draw>, b: Seq<Draw>, upto: int) -> bool {
    forall|i: int| 0 <= i < upto ==> a[i] == b[i]
}

/// Whether `a` and `b` hold the same draws as far as both go.
pub open spec fn alike(a: Seq<Draw>, b: Seq<Draw>) -> bool {
    forall|i: int| 0 <= i < a.len() && i < b.len() ==> a[i] == b[i]
}

/// Whether a source that stood as `from` handed out exactly `draws`, in
/// that order, and then stood as `to`.
pub open spec fn ran<R: Rand>(from: R, draws: Seq<Draw>, to: R) -> bool
    decreases draws.len(),
{
    if draws.len() == 0 {
        from == to
    } else {
        exists|mid: R|
            ran(from, draws.drop_last(), mid) && #[trigger] mid.yields(draws.last(), &to)
    }
}

/// One more draw extends a run by that draw.
pub proof fn lemma_ran_push<R: Rand>(from: R, draws: Seq<Draw>, mid: R, d: Draw, to: R)
    requires
        ran(from, draws, mid),
        mid.yields(d, &to),
    ensures
        ran(from, draws.push(d), to),
{
    let longer = draws.push(d);
    assert(longer.drop_last() =~= draws);
    assert(longer.last() == d);
    assert(mid.yields(longer.last(), &to));
}

/// Takes the next draw from `rng` and appends it to the record of a run
/// that began at `origin`.
pub(crate) fn take<R: Rand>(
    rng: &mut R,
    Ghost(origin): Ghost<R>,
    Ghost(log): Ghost<Seq<Draw>>,
) -> (d: Draw)
    requires
        ran(origin, log, *old(rng)),
    ensures
        ran(origin, log.push(d), *final(rng)),
{
    let ghost before = *rng;
    let d = rng.next();
    proof {
        lemma_ran_push(origin, log, before, d, *rng);
    }
    d
}

} // verus!
