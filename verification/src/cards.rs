//! Cards and the draw deck: the card value types, the fixed standard
//! composition, and randomized deck generation.

use rand::prelude::SliceRandom;
use std::collections::VecDeque;
use vstd::multiset::Multiset;
use vstd::prelude::*;

verus! {

/// The suit of a card. `Wild` is reserved for the action cards that are
/// not tied to a suit.
#[derive(Clone, Copy, Debug, PartialEq, Eq, PartialOrd, Ord, Structural)]
pub enum Color {
    Red,
    Blue,
    Green,
    Yellow,
    Wild,
}

/// The rank or action of a card: the ten numeric ranks plus the five
/// action kinds.
#[derive(Clone, Copy, Debug, PartialEq, Eq, PartialOrd, Ord, Structural)]
pub enum CardKind {
    WildCard,
    DrawFour,
    DrawTwo,
    Cancel,
    Reverse,
    Zero,
    One,
    Two,
    Three,
    Four,
    Five,
    Six,
    Seven,
    Eight,
    Nine,
}

/// An immutable (color, kind) pair.
#[derive(Clone, Copy, Debug, PartialEq, Eq, PartialOrd, Ord, Structural)]
pub struct Card {
    pub color: Color,
    pub kind: CardKind,
}

/// The two kinds that must carry `Color::Wild`.
pub open spec fn wild_kind(k: CardKind) -> bool {
    k == CardKind::WildCard || k == CardKind::DrawFour
}

/// The pairing invariant: `WildCard` and `DrawFour` have color `Wild`,
/// every other kind has a non-`Wild` color.
pub open spec fn valid_card(c: Card) -> bool {
    wild_kind(c.kind) <==> c.color == Color::Wild
}

/// The thirteen suited cards of one color, in the baseline order the
/// deck is laid out in before shuffling.
pub open spec fn color_run(color: Color) -> Seq<Card> {
    seq![
        Card { color, kind: CardKind::Reverse },
        Card { color, kind: CardKind::DrawTwo },
        Card { color, kind: CardKind::Cancel },
        Card { color, kind: CardKind::Zero },
        Card { color, kind: CardKind::One },
        Card { color, kind: CardKind::Two },
        Card { color, kind: CardKind::Three },
        Card { color, kind: CardKind::Four },
        Card { color, kind: CardKind::Five },
        Card { color, kind: CardKind::Six },
        Card { color, kind: CardKind::Seven },
        Card { color, kind: CardKind::Eight },
        Card { color, kind: CardKind::Nine },
    ]
}

/// The four suitless action cards: two Draw Fours and two Wild Cards.
pub open spec fn wild_run() -> Seq<Card> {
    seq![
        Card { color: Color::Wild, kind: CardKind::DrawFour },
        Card { color: Color::Wild, kind: CardKind::DrawFour },
        Card { color: Color::Wild, kind: CardKind::WildCard },
        Card { color: Color::Wild, kind: CardKind::WildCard },
    ]
}

/// The fixed 56-card composition of a fresh deck, in baseline order:
/// one run of thirteen suited cards per suit, then the four wild
/// action cards.
pub open spec fn standard_deck() -> Seq<Card> {
    color_run(Color::Red) + color_run(Color::Blue) + color_run(Color::Green) + color_run(
        Color::Yellow,
    ) + wild_run()
}

/// How many copies of a card the fixed composition holds: two of each
/// suitless wild action card, one of every suited card, and none of
/// any invalid color/kind pairing.
pub open spec fn standard_count(c: Card) -> nat {
    if wild_kind(c.kind) {
        if c.color == Color::Wild {
            2
        } else {
            0
        }
    } else {
        if c.color == Color::Wild {
            0
        } else {
            1
        }
    }
}

/// Within one suit's run, a card occurs exactly once when it carries
/// that suit and a non-wild kind, and never otherwise.
proof fn lemma_color_run_count(color: Color, c: Card)
    ensures
        color_run(color).to_multiset().count(c) == if c.color == color && !wild_kind(c.kind) {
            1nat
        } else {
            0nat
        },
{
    broadcast use vstd::seq_lib::group_to_multiset_ensures;
    broadcast use vstd::multiset::group_multiset_axioms;

    let run = Seq::<Card>::empty().push(Card { color, kind: CardKind::Reverse }).push(
        Card { color, kind: CardKind::DrawTwo },
    ).push(Card { color, kind: CardKind::Cancel }).push(Card { color, kind: CardKind::Zero }).push(
        Card { color, kind: CardKind::One },
    ).push(Card { color, kind: CardKind::Two }).push(Card { color, kind: CardKind::Three }).push(
        Card { color, kind: CardKind::Four },
    ).push(Card { color, kind: CardKind::Five }).push(Card { color, kind: CardKind::Six }).push(
        Card { color, kind: CardKind::Seven },
    ).push(Card { color, kind: CardKind::Eight }).push(Card { color, kind: CardKind::Nine });
    assert(color_run(color) =~= run);
    assert(Seq::<Card>::empty().to_multiset() =~= Multiset::<Card>::empty());
}

/// The generated deck's composition, card for card: its multiset holds
/// exactly `standard_count(c)` copies of every card `c`.
pub proof fn lemma_standard_deck_composition(c: Card)
    ensures
        standard_deck().to_multiset().count(c) == standard_count(c),
{
    broadcast use vstd::seq_lib::group_to_multiset_ensures;
    broadcast use vstd::seq_lib::lemma_multiset_commutative;
    broadcast use vstd::multiset::group_multiset_axioms;

    lemma_color_run_count(Color::Red, c);
    lemma_color_run_count(Color::Blue, c);
    lemma_color_run_count(Color::Green, c);
    lemma_color_run_count(Color::Yellow, c);
    let wilds = Seq::<Card>::empty().push(Card { color: Color::Wild, kind: CardKind::DrawFour }).push(
        Card { color: Color::Wild, kind: CardKind::DrawFour },
    ).push(Card { color: Color::Wild, kind: CardKind::WildCard }).push(
        Card { color: Color::Wild, kind: CardKind::WildCard },
    );
    assert(wild_run() =~= wilds);
    assert(Seq::<Card>::empty().to_multiset() =~= Multiset::<Card>::empty());
    assert(wild_run().to_multiset().count(c) == if c.color == Color::Wild && wild_kind(c.kind) {
        2nat
    } else {
        0nat
    });
}

/// Every card of the fixed composition satisfies the color/kind
/// pairing invariant.
pub proof fn lemma_standard_deck_valid()
    ensures
        standard_deck().len() == 56,
        forall|i: int| 0 <= i < 56 ==> valid_card(#[trigger] standard_deck()[i]),
{
}

/// Relies on rand's `SliceRandom::shuffle` (seeded from
/// `rand::thread_rng`): it permutes the slice in place by swapping
/// elements, so the length and the multiset of elements are unchanged;
/// only the order may change.
#[verifier::external_body]
pub(crate) fn shuffle_cards(cards: &mut Vec<Card>)
    ensures
        final(cards)@.len() == old(cards)@.len(),
        final(cards)@.to_multiset() == old(cards)@.to_multiset(),
{
    cards.shuffle(&mut rand::thread_rng());
}

/// Appends the thirteen suited cards of `color` in baseline order.
fn push_color_run(deck: &mut Vec<Card>, color: Color)
    ensures
        final(deck)@ == old(deck)@ + color_run(color),
{
    deck.push(Card { color, kind: CardKind::Reverse });
    deck.push(Card { color, kind: CardKind::DrawTwo });
    deck.push(Card { color, kind: CardKind::Cancel });
    deck.push(Card { color, kind: CardKind::Zero });
    deck.push(Card { color, kind: CardKind::One });
    deck.push(Card { color, kind: CardKind::Two });
    deck.push(Card { color, kind: CardKind::Three });
    deck.push(Card { color, kind: CardKind::Four });
    deck.push(Card { color, kind: CardKind::Five });
    deck.push(Card { color, kind: CardKind::Six });
    deck.push(Card { color, kind: CardKind::Seven });
    deck.push(Card { color, kind: CardKind::Eight });
    deck.push(Card { color, kind: CardKind::Nine });
    proof {
        assert(deck@ =~= old(deck)@ + color_run(color));
    }
}

impl Card {
    /// Builds the fixed 56-card composition and shuffles it into a
    /// uniformly random order, returning it as a draw pile.
    pub fn random_deck() -> (deck: VecDeque<Card>)
        ensures
            deck@.len() == 56,
            deck@.to_multiset() == standard_deck().to_multiset(),
    {
        let mut cards: Vec<Card> = Vec::new();
        push_color_run(&mut cards, Color::Red);
        push_color_run(&mut cards, Color::Blue);
        push_color_run(&mut cards, Color::Green);
        push_color_run(&mut cards, Color::Yellow);
        cards.push(Card { color: Color::Wild, kind: CardKind::DrawFour });
        cards.push(Card { color: Color::Wild, kind: CardKind::DrawFour });
        cards.push(Card { color: Color::Wild, kind: CardKind::WildCard });
        cards.push(Card { color: Color::Wild, kind: CardKind::WildCard });
        proof {
            assert(cards@ =~= standard_deck());
        }
        shuffle_cards(&mut cards);
        let mut deck: VecDeque<Card> = VecDeque::new();
        let mut i: usize = 0;
        while i < cards.len()
            invariant
                i <= cards@.len(),
                deck@ == cards@.subrange(0, i as int),
                cards@.len() == 56,
                cards@.to_multiset() == standard_deck().to_multiset(),
            decreases cards@.len() - i,
        {
            deck.push_back(cards[i]);
            proof {
                assert(deck@ =~= cards@.subrange(0, i as int + 1));
            }
            i = i + 1;
        }
        proof {
            assert(deck@ =~= cards@);
        }
        deck
    }
}

} // verus!
