//! The aggregate game state: players, the draw pile, and the face-up
//! card, with verified draw and reshuffle operations.

use crate::cards::{standard_deck, valid_card, Card, CardKind, Color};
use crate::player::Player;
use std::collections::VecDeque;
use vstd::prelude::*;

verus! {

/// The whole rules state of one game. The deck together with the
/// face-up card always carries the fixed standard composition at
/// construction time; drawing moves cards out of the deck.
#[derive(Debug)]
pub struct Game {
    pub players: Vec<Player>,
    pub deck: VecDeque<Card>,
    pub current_card: Card,
}

impl Game {
    /// Starts a game: no players, a freshly generated and shuffled
    /// deck with its top card removed to become the face-up card.
    /// The deck plus the face-up card together are exactly the fixed
    /// standard composition, and every card of them is a valid
    /// color/kind pairing.
    pub fn new() -> (game: Game)
        ensures
            game.players@ == Seq::<Player>::empty(),
            game.deck@.len() == standard_deck().len() - 1,
            valid_card(game.current_card),
            forall|i: int| 0 <= i < game.deck@.len() ==> valid_card(#[trigger] game.deck@[i]),
            game.deck@.to_multiset().insert(game.current_card) == standard_deck().to_multiset(),
    {
        let mut game = Game {
            players: Vec::new(),
            deck: Card::random_deck(),
            current_card: Card { color: Color::Wild, kind: CardKind::Cancel },
        };
        let ghost full = game.deck@;
        let top = game.card_from_deck_top();
        game.current_card = top.unwrap();
        proof {
            broadcast use vstd::seq_lib::group_to_multiset_ensures;

            crate::cards::lemma_standard_deck_valid();
            let c = full[0];
            assert(full.contains(c));
            assert(standard_deck().to_multiset().count(c) > 0);
            assert(standard_deck().contains(c));
            assert(valid_card(c));
            assert(game.deck@ =~= full.remove(0));
            assert(game.deck@.to_multiset() == full.to_multiset().remove(c));
            assert(game.deck@.to_multiset().insert(c) =~= full.to_multiset());
            assert forall|i: int| 0 <= i < game.deck@.len() implies valid_card(
                #[trigger] game.deck@[i],
            ) by {
                assert(game.deck@[i] == full[i + 1]);
                assert(full.contains(full[i + 1]));
                assert(standard_deck().to_multiset().count(full[i + 1]) > 0);
                assert(standard_deck().contains(full[i + 1]));
            }
        }
        game
    }

    /// Removes and returns the front card of the draw pile; on an
    /// empty deck it returns nothing and changes nothing.
    pub fn card_from_deck_top(&mut self) -> (card: Option<Card>)
        ensures
            old(self).deck@.len() == 0 ==> card is None && final(self).deck@ == old(self).deck@,
            old(self).deck@.len() > 0 ==> card == Some(old(self).deck@[0]) && final(self).deck@
                == old(self).deck@.subrange(1, old(self).deck@.len() as int),
            final(self).players == old(self).players,
            final(self).current_card == old(self).current_card,
    {
        self.deck.pop_front()
    }

    /// Re-randomizes the order of the remaining draw pile. The cards
    /// themselves are unchanged count-for-count, as are the players
    /// and the face-up card; an empty deck stays empty.
    pub fn reshuffle(&mut self)
        ensures
            final(self).deck@.len() == old(self).deck@.len(),
            final(self).deck@.to_multiset() == old(self).deck@.to_multiset(),
            final(self).players == old(self).players,
            final(self).current_card == old(self).current_card,
    {
        let mut cards: Vec<Card> = Vec::new();
        proof {
            assert(cards@ + self.deck@ =~= old(self).deck@);
        }
        while self.deck.len() != 0
            invariant
                cards@ + self.deck@ == old(self).deck@,
                self.players == old(self).players,
                self.current_card == old(self).current_card,
            decreases self.deck@.len(),
        {
            let card = self.deck.pop_front().unwrap();
            cards.push(card);
            proof {
                assert(cards@ + self.deck@ =~= old(self).deck@);
            }
        }
        proof {
            assert(cards@ =~= cards@ + self.deck@);
        }
        crate::cards::shuffle_cards(&mut cards);
        let mut i: usize = 0;
        while i < cards.len()
            invariant
                i <= cards@.len(),
                self.deck@ == cards@.subrange(0, i as int),
                cards@.len() == old(self).deck@.len(),
                cards@.to_multiset() == old(self).deck@.to_multiset(),
                self.players == old(self).players,
                self.current_card == old(self).current_card,
            decreases cards@.len() - i,
        {
            self.deck.push_back(cards[i]);
            proof {
                assert(self.deck@ =~= cards@.subrange(0, i as int + 1));
            }
            i = i + 1;
        }
        proof {
            assert(self.deck@ =~= cards@);
        }
    }
}

} // verus!
