//! Ballots: the leadership terms that the election hands out.

use vstd::prelude::*;

verus! {

/// A leadership term: a round number, with the identifier of the node that
/// leads it to break ties. Ballots are totally ordered, and a higher ballot
/// defeats a lower one.
#[derive(Clone, Copy, Debug, PartialEq, Eq, Structural)]
pub struct Ballot {
    pub round: u32,
    pub pid: u64,
}

/// `a` is a strictly higher ballot than `b`: a later round, or the same round
/// led by a node with a larger identifier.
pub open spec fn ballot_above(a: Ballot, b: Ballot) -> bool {
    a.round > b.round || (a.round == b.round && a.pid > b.pid)
}

impl Ballot {
    /// Tells whether this ballot defeats `other`.
    pub fn defeats(&self, other: &Ballot) -> (higher: bool)
        ensures
            higher == ballot_above(*self, *other),
    {
        self.round > other.round || (self.round == other.round && self.pid > other.pid)
    }

    /// The higher of two ballots.
    pub fn highest(a: Ballot, b: Ballot) -> (top: Ballot)
        ensures
            top == if ballot_above(b, a) { b } else { a },
            !ballot_above(a, top),
            !ballot_above(b, top),
    {
        if b.defeats(&a) {
            b
        } else {
            a
        }
    }
}

/// Of two different ballots exactly one is above the other, and no ballot is
/// above itself.
pub proof fn lemma_ballot_total(a: Ballot, b: Ballot)
    ensures
        !ballot_above(a, a),
        a != b ==> (ballot_above(a, b) <==> !ballot_above(b, a)),
        a == b ==> !ballot_above(a, b) && !ballot_above(b, a),
{
}

/// Being above is transitive.
pub proof fn lemma_ballot_transitive(a: Ballot, b: Ballot, c: Ballot)
    requires
        ballot_above(a, b),
        ballot_above(b, c),
    ensures
        ballot_above(a, c),
{
}

} // verus!
