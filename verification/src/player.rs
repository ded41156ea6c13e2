//! A player: a display name, a turn-order index, and an owned hand.

use crate::cards::Card;
use vstd::prelude::*;

verus! {

/// One player's state. Turn ordering and uniqueness of names or turn
/// indices across players are the caller's responsibility.
#[derive(Debug)]
pub struct Player {
    pub name: String,
    pub turn: usize,
    pub cards: Vec<Card>,
}

impl Player {
    /// A fresh player: empty name, turn index zero, empty hand.
    pub fn new() -> (player: Player)
        ensures
            player.name@ == Seq::<char>::empty(),
            player.turn == 0,
            player.cards@ == Seq::<Card>::empty(),
    {
        Player { name: String::new(), turn: 0, cards: Vec::new() }
    }

    /// Overwrites the name unconditionally; the hand and turn index
    /// are untouched.
    pub fn set_name(&mut self, name: &str)
        ensures
            final(self).name@ == name@,
            final(self).turn == old(self).turn,
            final(self).cards == old(self).cards,
    {
        self.name = name.to_owned();
    }

    /// Overwrites the turn index unconditionally; the name and hand
    /// are untouched.
    pub fn set_turn(&mut self, turn: usize)
        ensures
            final(self).turn == turn,
            final(self).name == old(self).name,
            final(self).cards == old(self).cards,
    {
        self.turn = turn;
    }
}

} // verus!
