use std::collections::VecDeque;
use uno_core::{Card, CardKind, Color, Game, Player};

fn empty_deck_game() -> Game {
    Game {
        players: Vec::new(),
        deck: VecDeque::new(),
        current_card: Card { color: Color::Red, kind: CardKind::Zero },
    }
}

#[test]
fn generated_deck_has_fifty_six_cards() {
    let deck = Card::random_deck();
    assert_eq!(deck.len(), 56);
}

#[test]
fn generated_deck_wild_cards() {
    let deck = Card::random_deck();
    let wildcards = deck.iter().filter(|c| matches!(c.kind, CardKind::WildCard)).count();
    let drawfours = deck.iter().filter(|c| matches!(c.kind, CardKind::DrawFour)).count();
    assert_eq!(wildcards, 2);
    assert_eq!(drawfours, 2);
    for card in deck.iter() {
        let wild_kind = matches!(card.kind, CardKind::WildCard | CardKind::DrawFour);
        assert_eq!(wild_kind, matches!(card.color, Color::Wild));
    }
}

#[test]
fn generated_deck_composition_count_for_count() {
    let deck = Card::random_deck();
    let colors = [Color::Red, Color::Blue, Color::Green, Color::Yellow];
    let kinds = [
        CardKind::Reverse,
        CardKind::DrawTwo,
        CardKind::Cancel,
        CardKind::Zero,
        CardKind::One,
        CardKind::Two,
        CardKind::Three,
        CardKind::Four,
        CardKind::Five,
        CardKind::Six,
        CardKind::Seven,
        CardKind::Eight,
        CardKind::Nine,
    ];
    for color in colors {
        for kind in kinds {
            let n = deck.iter().filter(|c| c.color == color && c.kind == kind).count();
            assert_eq!(n, 1, "expected exactly one card of each suited color/kind pair");
        }
    }
}

#[test]
fn reshuffle_preserves_cards_count_for_count() {
    let mut game = Game::new();
    let mut before: Vec<Card> = game.deck.iter().cloned().collect();
    game.reshuffle();
    let mut after: Vec<Card> = game.deck.iter().cloned().collect();
    before.sort();
    after.sort();
    assert_eq!(before, after);
}

#[test]
fn reshuffle_keeps_players_and_current_card() {
    let mut game = Game::new();
    let mut player = Player::new();
    player.set_name("ada");
    game.players.push(player);
    let current = game.current_card;
    game.reshuffle();
    assert_eq!(game.players.len(), 1);
    assert_eq!(game.players[0].name, "ada");
    assert_eq!(game.current_card, current);
}

#[test]
fn reshuffle_of_empty_deck_yields_empty_deck() {
    let mut game = empty_deck_game();
    game.reshuffle();
    assert!(game.deck.is_empty());
}

#[test]
fn draw_shrinks_deck_by_one_and_yields_card() {
    let mut game = Game::new();
    let before = game.deck.len();
    let front = *game.deck.front().unwrap();
    let card = game.card_from_deck_top();
    assert_eq!(card, Some(front));
    assert_eq!(game.deck.len(), before - 1);
}

#[test]
fn draw_from_empty_deck_yields_none_and_keeps_size_zero() {
    let mut game = empty_deck_game();
    assert_eq!(game.card_from_deck_top(), None);
    assert_eq!(game.deck.len(), 0);
}

#[test]
fn deck_supports_exactly_fifty_five_draws_after_new() {
    let mut game = Game::new();
    for _ in 0..55 {
        assert!(game.card_from_deck_top().is_some());
    }
    assert!(game.card_from_deck_top().is_none());
}

#[test]
fn new_game_state() {
    let game = Game::new();
    assert!(game.players.is_empty());
    assert_eq!(game.deck.len(), 55);
    let wild_kind = matches!(game.current_card.kind, CardKind::WildCard | CardKind::DrawFour);
    assert_eq!(wild_kind, matches!(game.current_card.color, Color::Wild));
}

#[test]
fn new_player_defaults() {
    let player = Player::new();
    assert_eq!(player.name, "");
    assert_eq!(player.turn, 0);
    assert!(player.cards.is_empty());
}

#[test]
fn set_name_twice_keeps_only_latest() {
    let mut player = Player::new();
    player.set_name("alice");
    player.set_name("bob");
    assert_eq!(player.name, "bob");
}

#[test]
fn set_turn_twice_keeps_only_latest() {
    let mut player = Player::new();
    player.set_turn(3);
    player.set_turn(9);
    assert_eq!(player.turn, 9);
}

#[test]
fn setters_leave_other_fields_alone() {
    let mut player = Player::new();
    player.cards.push(Card { color: Color::Green, kind: CardKind::Seven });
    player.set_name("carol");
    player.set_turn(2);
    assert_eq!(player.name, "carol");
    assert_eq!(player.turn, 2);
    assert_eq!(player.cards, vec![Card { color: Color::Green, kind: CardKind::Seven }]);
}
