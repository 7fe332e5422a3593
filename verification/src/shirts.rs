//! A shirt giveaway: a customer gets the colour they prefer, or else the
//! colour of which the store holds most.

use vstd::prelude::*;

verus! {

/// The colour of a shirt.
#[derive(Debug, PartialEq, Eq, Copy, Clone, Structural)]
pub enum ShirtColor {
    Red,
    Blue,
}

/// A store of shirts.
pub struct Factory {
    /// The shirts in stock.
    pub store: Vec<ShirtColor>,
}

/// How many shirts of `color` are in `store`.
pub open spec fn stock(store: Seq<ShirtColor>, color: ShirtColor) -> nat
    decreases store.len(),
{
    if store.len() == 0 {
        0
    } else {
        stock(store.drop_last(), color) + if store.last() == color {
            1nat
        } else {
            0nat
        }
    }
}

/// The colour of which `store` holds most; blue on a tie.
pub open spec fn most_stocked_of(store: Seq<ShirtColor>) -> ShirtColor {
    if stock(store, ShirtColor::Red) > stock(store, ShirtColor::Blue) {
        ShirtColor::Red
    } else {
        ShirtColor::Blue
    }
}

impl Factory {
    /// Picks the shirt to give away: the preferred colour if the customer
    /// has one, the most stocked colour otherwise.
    pub fn giveaway(&self, user_preference: Option<ShirtColor>) -> (color: ShirtColor)
        ensures
            color == match user_preference {
                Some(preferred) => preferred,
                None => most_stocked_of(self.store@),
            },
    {
        match user_preference {
            Some(preferred) => preferred,
            None => self.most_stocked(),
        }
    }

    /// The colour of which the store holds most; blue on a tie, and so for
    /// an empty store.
    pub fn most_stocked(&self) -> (color: ShirtColor)
        ensures
            color == most_stocked_of(self.store@),
    {
        let mut red_shirts_count: usize = 0;
        let mut blue_shirts_count: usize = 0;
        let mut i: usize = 0;
        while i < self.store.len()
            invariant
                i <= self.store@.len(),
                red_shirts_count == stock(self.store@.take(i as int), ShirtColor::Red),
                blue_shirts_count == stock(self.store@.take(i as int), ShirtColor::Blue),
                red_shirts_count + blue_shirts_count == i,
            decreases self.store@.len() - i,
        {
            proof {
                assert(self.store@.take(i + 1).drop_last() =~= self.store@.take(i as int));
            }
            match self.store[i] {
                ShirtColor::Red => red_shirts_count += 1,
                ShirtColor::Blue => blue_shirts_count += 1,
            }
            i += 1;
        }
        proof {
            assert(self.store@.take(i as int) =~= self.store@);
        }
        if red_shirts_count > blue_shirts_count {
            ShirtColor::Red
        } else {
            ShirtColor::Blue
        }
    }
}

} // verus!
