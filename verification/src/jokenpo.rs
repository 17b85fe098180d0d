//! Rock–paper–scissors: a player holds an object and knows which
//! object it defeats; the partial order on players compares by that
//! rule, and `jokenpo` picks the winner of a round.

use vstd::prelude::*;

verus! {

use core::cmp::Ordering;

/// The three objects of the game.
#[derive(Debug, PartialEq, Eq, Structural, Clone, Copy)]
pub enum Object {
    Pedra,
    Papel,
    Tesoura,
}

/// One player: the object played, and the object it defeats.
#[derive(Debug, PartialEq, Eq, Structural, Clone, Copy)]
pub struct Player {
    pub object: Object,
    pub defeats: Object,
}

/// `p` wins against `q`: the objects differ and `p` defeats `q`'s.
pub open spec fn beats(p: Player, q: Player) -> bool {
    p.object != q.object && p.defeats == q.object
}

impl PartialOrd for Player {
    /// Equal objects tie; a player that defeats the other's object
    /// ranks greater; anything else ranks less.
    fn partial_cmp(&self, other: &Player) -> (r: Option<Ordering>) {
        if self.object == other.object {
            Some(Ordering::Equal)
        } else if self.defeats == other.object {
            Some(Ordering::Greater)
        } else {
            Some(Ordering::Less)
        }
    }
}

impl vstd::std_specs::cmp::PartialOrdSpecImpl for Player {
    open spec fn obeys_partial_cmp_spec() -> bool {
        true
    }

    open spec fn partial_cmp_spec(&self, other: &Player) -> Option<Ordering> {
        if self.object == other.object {
            Some(Ordering::Equal)
        } else if beats(*self, *other) {
            Some(Ordering::Greater)
        } else {
            Some(Ordering::Less)
        }
    }
}

/// The winner of a round: the first player only when that player
/// strictly defeats the second, else the second player.
pub fn jokenpo<'a>(p1: &'a Player, p2: &'a Player) -> (r: &'a Player)
    ensures
        *r == (if beats(*p1, *p2) {
            *p1
        } else {
            *p2
        }),
{
    if p1 > p2 {
        &p1
    } else {
        &p2
    }
}

} // verus!
