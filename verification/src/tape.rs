//! A source that plays back draws chosen in advance.

use crate::draw::Draw;
use crate::source::{ran, Rand};
use vstd::prelude::*;

verus! {

/// A source that hands out the draws of a fixed tape, in order, and the
/// zero draw forever once the tape has run out.
pub struct Tape {
    draws: Vec<Draw>,
    at: usize,
}

/// What a tape with `rest` still to play hands out over `n` draws.
pub open spec fn played(rest: Seq<Draw>, n: nat) -> Seq<Draw> {
    Seq::new(
        n,
        |i: int|
            if i < rest.len() {
                rest[i]
            } else {
                Draw { bits: 0 }
            },
    )
}

/// What is left of `rest` after `n` draws.
pub open spec fn left(rest: Seq<Draw>, n: nat) -> Seq<Draw> {
    if n < rest.len() {
        rest.skip(n as int)
    } else {
        Seq::empty()
    }
}

impl View for Tape {
    type V = Seq<Draw>;

    /// The draws still to be played.
    closed spec fn view(&self) -> Seq<Draw> {
        if self.at <= self.draws.len() {
            self.draws@.skip(self.at as int)
        } else {
            Seq::empty()
        }
    }
}

impl Tape {
    /// A tape that plays `draws` from the first one on.
    pub fn new(draws: Vec<Draw>) -> (tape: Tape)
        ensures
            tape@ == draws@,
    {
        let tape = Tape { draws, at: 0 };
        assert(tape@ =~= draws@);
        tape
    }

    /// How many draws of the tape are still to be played.
    pub fn remaining(&self) -> (n: usize)
        ensures
            n == self@.len(),
    {
        if self.at <= self.draws.len() {
            self.draws.len() - self.at
        } else {
            0
        }
    }
}

impl Rand for Tape {
    /// A tape hands out the first draw still to be played and keeps the
    /// rest; an empty one hands out zero and stays empty.
    open spec fn yields(&self, d: Draw, after: &Self) -> bool {
        d == played(self@, 1)[0] && after@ == left(self@, 1)
    }

    fn next(&mut self) -> (d: Draw) {
        if self.at < self.draws.len() {
            let d = self.draws[self.at];
            self.at = self.at + 1;
            proof {
                assert(self@ =~= left(old(self)@, 1));
            }
            d
        } else {
            proof {
                assert(self@ =~= left(old(self)@, 1));
            }
            Draw::zero()
        }
    }
}

/// Whatever a tape handed out over a run is the start of what was on it,
/// padded with zeros, and what it holds afterwards is the rest.
pub proof fn lemma_tape_ran(from: Tape, draws: Seq<Draw>, to: Tape)
    requires
        ran(from, draws, to),
    ensures
        draws == played(from@, draws.len()),
        to@ == left(from@, draws.len()),
    decreases draws.len(),
{
    if draws.len() == 0 {
        assert(draws =~= played(from@, 0));
        assert(to@ =~= left(from@, 0));
    } else {
        let mid = choose|mid: Tape|
            ran(from, draws.drop_last(), mid) && #[trigger] mid.yields(draws.last(), &to);
        lemma_tape_ran(from, draws.drop_last(), mid);
        let n = draws.len();
        assert(to@ =~= left(from@, n));
        assert(draws =~= played(from@, n)) by {
            assert forall|i: int| 0 <= i < n implies draws[i] == played(from@, n)[i] by {
                if i < n - 1 {
                    assert(draws[i] == draws.drop_last()[i]);
                }
            }
        }
    }
}

} // verus!
